//! What the client of the database needs to know before and after it
//! connects: the version of the server and the connection parameters that
//! the caller left open.

use vstd::prelude::*;
use crate::text::chars_of;
use crate::text::find_sub;
use crate::text::first_occurrence;
use crate::text::occurs;
use crate::text::parse_u16;
use crate::text::parse_u16_spec;
use crate::text::slice;
use crate::text::text_of;

verus! {

/// What `semver::Version::parse` makes of a text: the major, minor and
/// patch numbers of the version it reads, or nothing where it reads none.
pub uninterp spec fn semver_of(text: Seq<char>) -> Option<(u64, u64, u64)>;

/// Calls `semver::Version::parse` and keeps the three numbers of the
/// version.  The result depends on the text alone; `semver_of` names it.
#[verifier::external_body]
fn semver_parse(text: &str) -> (numbers: Option<(u64, u64, u64)>)
    ensures
        numbers == semver_of(text@),
{
    match semver::Version::parse(text) {
        Ok(v) => Some((v.major, v.minor, v.patch)),
        Err(_) => None,
    }
}

/// The three numbers of a version.
#[derive(Debug, Clone, Copy, PartialEq, Eq, Structural)]
pub struct SemVer {
    pub major: u64,
    pub minor: u64,
    pub patch: u64,
}

/// The version of the server: the text it reports and the numbers in it.
#[derive(Debug, Clone, PartialEq, Eq)]
pub struct GPDBVersion {
    pub verstr: String,
    pub semver: SemVer,
}

/// The part of the server's banner between `(Greenplum Database ` and the
/// first `)` of the banner; nothing where either is missing or the `)`
/// comes first.
pub open spec fn version_text(gpver: Seq<char>) -> Option<Seq<char>> {
    let marker = "(Greenplum Database "@;
    if !occurs(gpver, marker) || !occurs(gpver, ")"@) {
        None
    } else {
        let start = first_occurrence(gpver, marker) + marker.len();
        let end = first_occurrence(gpver, ")"@);
        if start > end {
            None
        } else {
            Some(gpver.subrange(start, end))
        }
    }
}

/// The text up to its first blank.
pub open spec fn first_word(verstr: Seq<char>) -> Seq<char> {
    if occurs(verstr, " "@) {
        verstr.subrange(0, first_occurrence(verstr, " "@))
    } else {
        verstr
    }
}

/// The first three parts of a dotted number, with their dots: the text up
/// to its third dot.  Nothing where it has fewer than three parts.
pub open spec fn first_three(word: Seq<char>) -> Option<Seq<char>> {
    if !occurs(word, "."@) {
        None
    } else {
        let d1 = first_occurrence(word, "."@);
        let rest1 = word.subrange(d1 + 1, word.len() as int);
        if !occurs(rest1, "."@) {
            None
        } else {
            let d2 = first_occurrence(rest1, "."@);
            let rest2 = rest1.subrange(d2 + 1, rest1.len() as int);
            if occurs(rest2, "."@) {
                Some(word.subrange(0, d1 + 1 + d2 + 1 + first_occurrence(rest2, "."@)))
            } else {
                Some(word)
            }
        }
    }
}

/// The version text of a banner and the text of its three numbers.
pub open spec fn version_parts(gpver: Seq<char>) -> Option<(Seq<char>, Seq<char>)> {
    match version_text(gpver) {
        None => None,
        Some(verstr) => match first_three(first_word(verstr)) {
            None => None,
            Some(numbers) => Some((verstr, numbers)),
        },
    }
}

/// Cuts the version text and the text of its three numbers out of the
/// banner of the server, as in `(Greenplum Database 6.3.0 build dev)`.
pub fn split_version(gpver: &str) -> (parts: Option<(String, String)>)
    ensures
        match parts {
            Some((verstr, numbers)) => version_parts(gpver@) == Some((verstr@, numbers@)),
            None => version_parts(gpver@) is None,
        },
{
    proof {
        reveal_strlit("(Greenplum Database ");
        reveal_strlit(")");
        reveal_strlit(" ");
        reveal_strlit(".");
    }
    let banner = chars_of(gpver);
    let marker = chars_of("(Greenplum Database ");
    let paren = chars_of(")");
    let blank = chars_of(" ");
    let dot = chars_of(".");
    let at = match find_sub(&banner, &marker) {
        None => return None,
        Some(at) => at,
    };
    let ver_end = match find_sub(&banner, &paren) {
        None => return None,
        Some(end) => end,
    };
    let total = banner.len();
    assert(marker@.len() == 20 && at + 20 <= total);
    let ver_start = at + 20;
    if ver_start > ver_end {
        return None;
    }
    assert(paren@.len() == 1 && ver_end + 1 <= total);
    let verstr = slice(&banner, ver_start, ver_end);
    let word = match find_sub(&verstr, &blank) {
        Some(end) => slice(&verstr, 0, end),
        None => slice(&verstr, 0, verstr.len()),
    };
    assert(verstr@.subrange(0, verstr@.len() as int) =~= verstr@);
    assert(word@ == first_word(verstr@));
    let n = word.len();
    let d1 = match find_sub(&word, &dot) {
        None => return None,
        Some(d) => d,
    };
    assert(dot@.len() == 1 && d1 + 1 <= n);
    let rest1 = slice(&word, d1 + 1, n);
    let d2 = match find_sub(&rest1, &dot) {
        None => return None,
        Some(d) => d,
    };
    assert(d2 + 1 <= rest1@.len());
    let rest2 = slice(&rest1, d2 + 1, rest1.len());
    let numbers = match find_sub(&rest2, &dot) {
        Some(d3) => {
            assert(d3 + 1 <= rest2@.len());
            slice(&word, 0, d1 + 1 + d2 + 1 + d3)
        },
        None => slice(&word, 0, n),
    };
    assert(word@.subrange(0, n as int) =~= word@);
    Some((text_of(&verstr), text_of(&numbers)))
}

/// The version that a banner reports: its version text, and the numbers
/// that `semver` reads in the first three parts of it.
pub open spec fn version_of(gpver: Seq<char>) -> Option<(Seq<char>, SemVer)> {
    match version_parts(gpver) {
        None => None,
        Some((verstr, numbers)) => match semver_of(numbers) {
            None => None,
            Some((major, minor, patch)) => Some((verstr, SemVer { major, minor, patch })),
        },
    }
}

impl GPDBVersion {
    /// The version with the given text, where its numbers could be read.
    pub fn with_numbers(verstr: String, numbers: Option<(u64, u64, u64)>) -> (version: Option<
        GPDBVersion,
    >)
        ensures
            match numbers {
                Some((major, minor, patch)) => version matches Some(v) && v.verstr == verstr
                    && v.semver == (SemVer { major, minor, patch }),
                None => version is None,
            },
    {
        match numbers {
            Some((major, minor, patch)) => Some(
                GPDBVersion { verstr, semver: SemVer { major, minor, patch } },
            ),
            None => None,
        }
    }

    /// Reads the version out of the banner of the server; `None` where the
    /// banner names no Greenplum version.
    pub fn new(gpver: &str) -> (version: Option<GPDBVersion>)
        ensures
            match version {
                Some(v) => version_of(gpver@) == Some((v.verstr@, v.semver)),
                None => version_of(gpver@) is None,
            },
    {
        match split_version(gpver) {
            None => None,
            Some((verstr, numbers)) => {
                let parsed = semver_parse(numbers.as_str());
                GPDBVersion::with_numbers(verstr, parsed)
            },
        }
    }
}

/// The connection parameters that are set already, as far as filling the
/// others depends on them.
#[derive(Debug, Clone, PartialEq, Eq)]
pub struct ConnState {
    pub has_host: bool,
    pub has_port: bool,
    pub user: Option<String>,
    pub has_dbname: bool,
    pub has_application_name: bool,
}

/// The values of `PGHOST`, `PGPORT`, `PGUSER`, `PGDATABASE` and `PGAPPNAME`,
/// where the environment sets them.
#[derive(Debug, Clone, PartialEq, Eq)]
pub struct EnvOverrides {
    pub pghost: Option<String>,
    pub pgport: Option<String>,
    pub pguser: Option<String>,
    pub pgdatabase: Option<String>,
    pub pgappname: Option<String>,
}

/// The parameters to set; `None` leaves a parameter as it is.
#[derive(Debug, Clone, PartialEq, Eq)]
pub struct ConnFill {
    pub host: Option<String>,
    pub port: Option<u16>,
    pub user: Option<String>,
    pub dbname: Option<String>,
    pub application_name: Option<String>,
}

/// Why the open parameters cannot be filled.
#[derive(Debug, Clone, Copy, PartialEq, Eq, Structural)]
pub enum ConfigError {
    /// The port to fall back on is no port number.
    BadPort,
}

/// The characters of an optional string.
pub open spec fn opt_text(s: Option<String>) -> Option<Seq<char>> {
    match s {
        Some(t) => Some(t@),
        None => None,
    }
}

/// The value for a parameter: none where it is set already, else the
/// override of the environment, else the default.
pub open spec fn chosen(present: bool, env: Option<Seq<char>>, default: Seq<char>) -> Option<
    Seq<char>,
> {
    if present {
        None
    } else {
        match env {
            Some(v) => Some(v),
            None => Some(default),
        }
    }
}

/// The value for a parameter that is not set yet.
pub fn autofill_opt(present: bool, optenv: &Option<String>, optdef: &str) -> (value: Option<String>)
    ensures
        opt_text(value) == chosen(present, opt_text(*optenv), optdef@),
{
    if present {
        return None;
    }
    match optenv {
        Some(v) => Some(v.clone()),
        None => Some(optdef.to_owned()),
    }
}

/// The user of the connection once the open parameters are filled.
pub open spec fn user_after(state: ConnState, env: EnvOverrides, os_user: Seq<char>) -> Seq<char> {
    match state.user {
        Some(u) => u@,
        None => chosen(false, opt_text(env.pguser), os_user)->0,
    }
}

/// The port to set, where one is to be set and can be read.
pub open spec fn port_after(state: ConnState, env: EnvOverrides) -> Option<Option<u16>> {
    match chosen(state.has_port, opt_text(env.pgport), "5432"@) {
        None => Some(None),
        Some(text) => match parse_u16_spec(text) {
            Some(port) => Some(Some(port)),
            None => None,
        },
    }
}

/// Fills the parameters that the caller left open: from the environment
/// where it sets them, else with `127.0.0.1`, port `5432`, the user of the
/// operating system, a database named like the user, and the name of this
/// tool.
pub fn get_config(state: &ConnState, env: &EnvOverrides, os_user: &str) -> (r: Result<
    ConnFill,
    ConfigError,
>)
    ensures
        match r {
            Ok(fill) => {
                &&& opt_text(fill.host) == chosen(state.has_host, opt_text(env.pghost), "127.0.0.1"@)
                &&& port_after(*state, *env) == Some(fill.port)
                &&& opt_text(fill.user) == chosen(state.user is Some, opt_text(env.pguser), os_user@)
                &&& opt_text(fill.dbname) == chosen(
                    state.has_dbname,
                    opt_text(env.pgdatabase),
                    user_after(*state, *env, os_user@),
                )
                &&& opt_text(fill.application_name) == chosen(
                    state.has_application_name,
                    opt_text(env.pgappname),
                    "hidva/wait-for-graph"@,
                )
            },
            Err(e) => port_after(*state, *env) is None && e == ConfigError::BadPort,
        },
{
    let host = autofill_opt(state.has_host, &env.pghost, "127.0.0.1");
    let port = match autofill_opt(state.has_port, &env.pgport, "5432") {
        None => None,
        Some(text) => {
            let chars = chars_of(text.as_str());
            match parse_u16(&chars) {
                Some(port) => Some(port),
                None => return Err(ConfigError::BadPort),
            }
        },
    };
    let user = autofill_opt(state.user.is_some(), &env.pguser, os_user);
    let dbname = match &state.user {
        Some(u) => autofill_opt(state.has_dbname, &env.pgdatabase, u.as_str()),
        None => match &user {
            Some(u) => autofill_opt(state.has_dbname, &env.pgdatabase, u.as_str()),
            None => None,
        },
    };
    let application_name = autofill_opt(
        state.has_application_name,
        &env.pgappname,
        "hidva/wait-for-graph",
    );
    Ok(ConnFill { host, port, user, dbname, application_name })
}

} // verus!
