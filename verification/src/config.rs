//! GitHub settings read from environment variables, optionally scoped by a profile.
use vstd::prelude::*;
use crate::text::{append_chars, ascii_upper, ascii_upper_exec, chars_of, is_ascii_alnum, is_ascii_alnum_exec, string_of};

verus! {

/// The GitHub settings the tool runs with.
#[derive(Clone, Debug)]
pub struct Config {
    pub github_token: String,
    pub github_owner: String,
    pub github_repo: String,
    pub github_user: String,
}

/// A setting that the environment does not provide.
#[derive(Debug)]
pub enum ConfigError {
    MissingVar(String),
    MissingProfileVar { variable: String, profile: String },
}

/// The text of a configuration error.
pub open spec fn config_error_text(e: ConfigError) -> Seq<char> {
    match e {
        ConfigError::MissingVar(v) => "Missing environment variable: "@ + v@,
        ConfigError::MissingProfileVar { variable, profile } => "Missing environment variable "@
            + variable@ + " for profile '"@ + profile@ + "'"@,
    }
}

impl ConfigError {
    /// The error's message.
    pub fn message(&self) -> (r: String)
        ensures
            r@ == config_error_text(*self),
    {
        let mut out: Vec<char> = Vec::new();
        match self {
            ConfigError::MissingVar(v) => {
                append_chars(&mut out, &chars_of("Missing environment variable: "));
                append_chars(&mut out, &chars_of(v.as_str()));
            },
            ConfigError::MissingProfileVar { variable, profile } => {
                append_chars(&mut out, &chars_of("Missing environment variable "));
                append_chars(&mut out, &chars_of(variable.as_str()));
                append_chars(&mut out, &chars_of(" for profile '"));
                append_chars(&mut out, &chars_of(profile.as_str()));
                append_chars(&mut out, &chars_of("'"));
            },
        }
        string_of(&out)
    }
}

/// The profile name as variable names use it: ASCII letters and digits upper-cased, every
/// other character made '_'.
pub open spec fn normalized_profile(profile: Seq<char>) -> Seq<char> {
    profile.map_values(|c: char| if is_ascii_alnum(c) { ascii_upper(c) } else { '_' })
}

/// The variable that holds setting `name` for `profile`, or `name` itself without a profile.
pub open spec fn variable_name(name: Seq<char>, profile: Option<Seq<char>>) -> Seq<char> {
    match profile {
        Some(p) => "WORKLOGR_"@ + normalized_profile(p) + "_"@ + name,
        None => name,
    }
}

/// The value of the first variable named `name`.
pub open spec fn env_value(vars: Seq<(String, String)>, name: Seq<char>) -> Option<Seq<char>>
    decreases vars.len(),
{
    if vars.len() == 0 {
        None
    } else if vars[0].0@ == name {
        Some(vars[0].1@)
    } else {
        env_value(vars.drop_first(), name)
    }
}

/// The error for a missing setting names the variable, and the profile where there is one.
pub open spec fn missing_setting_error(e: ConfigError, name: Seq<char>, profile: Option<Seq<char>>) -> bool {
    match profile {
        Some(p) => e matches ConfigError::MissingProfileVar { variable, profile: q }
            && variable@ == variable_name(name, profile) && q@ == p,
        None => e matches ConfigError::MissingVar(v) && v@ == name,
    }
}

/// The variable holding setting `name` for `profile`.
pub fn profile_variable_name(name: &str, profile: Option<&str>) -> (r: String)
    ensures
        r@ == variable_name(name@, match profile {
            Some(p) => Some(p@),
            None => None,
        }),
{
    match profile {
        Some(p) => {
            let chars = chars_of(p);
            let mut normalized: Vec<char> = Vec::new();
            let mut k: usize = 0;
            while k < chars.len()
                invariant
                    k <= chars@.len(),
                    normalized@ == normalized_profile(chars@).take(k as int),
                decreases chars.len() - k,
            {
                let c = chars[k];
                let n = if is_ascii_alnum_exec(c) { ascii_upper_exec(c) } else { '_' };
                normalized.push(n);
                assert(normalized@ =~= normalized_profile(chars@).take(k + 1));
                k += 1;
            }
            assert(normalized_profile(chars@).take(chars@.len() as int) == normalized_profile(chars@));
            let mut out = chars_of("WORKLOGR_");
            append_chars(&mut out, &normalized);
            append_chars(&mut out, &chars_of("_"));
            append_chars(&mut out, &chars_of(name));
            string_of(&out)
        },
        None => String::from_str(name),
    }
}

fn lookup(vars: &Vec<(String, String)>, name: &String) -> (r: Option<String>)
    ensures
        match r {
            Some(v) => env_value(vars@, name@) == Some(v@),
            None => env_value(vars@, name@) is None,
        },
{
    let mut i: usize = 0;
    assert(vars@.skip(0) == vars@);
    while i < vars.len()
        invariant
            i <= vars@.len(),
            env_value(vars@, name@) == env_value(vars@.skip(i as int), name@),
        decreases vars.len() - i,
    {
        assert(vars@.skip(i as int)[0] == vars@[i as int]);
        assert(vars@.skip(i as int).drop_first() == vars@.skip(i + 1));
        if vars[i].0 == *name {
            return Some(vars[i].1.clone());
        }
        i += 1;
    }
    assert(vars@.skip(i as int).len() == 0);
    None
}

/// Reads one setting: its value, or an error naming the missing variable.
fn read_env(name: &str, profile: Option<&str>, vars: &Vec<(String, String)>) -> (r: Result<String, ConfigError>)
    ensures
        ({
            let p = match profile {
                Some(p) => Some(p@),
                None => None,
            };
            match r {
                Ok(v) => env_value(vars@, variable_name(name@, p)) == Some(v@),
                Err(e) => env_value(vars@, variable_name(name@, p)) is None
                    && missing_setting_error(e, name@, p),
            }
        }),
{
    let variable = profile_variable_name(name, profile);
    match lookup(vars, &variable) {
        Some(v) => Ok(v),
        None => match profile {
            Some(p) => Err(ConfigError::MissingProfileVar { variable, profile: String::from_str(p) }),
            None => Err(ConfigError::MissingVar(String::from_str(name))),
        },
    }
}

impl Config {
    /// Reads the four GitHub settings from the environment `vars` (name and value pairs):
    /// `GITHUB_TOKEN`, `GITHUB_OWNER`, `GITHUB_REPO` and `GITHUB_USER`, or with a profile the
    /// `WORKLOGR_<PROFILE>_GITHUB_*` variables. The first missing one is the error.
    pub fn from_env(profile: Option<&str>, vars: &Vec<(String, String)>) -> (r: Result<Config, ConfigError>)
        ensures
            ({
                let p = match profile {
                    Some(p) => Some(p@),
                    None => None,
                };
                let token = env_value(vars@, variable_name("GITHUB_TOKEN"@, p));
                let owner = env_value(vars@, variable_name("GITHUB_OWNER"@, p));
                let repo = env_value(vars@, variable_name("GITHUB_REPO"@, p));
                let user = env_value(vars@, variable_name("GITHUB_USER"@, p));
                match r {
                    Ok(c) => token == Some(c.github_token@) && owner == Some(c.github_owner@)
                        && repo == Some(c.github_repo@) && user == Some(c.github_user@),
                    Err(e) => if token is None {
                        missing_setting_error(e, "GITHUB_TOKEN"@, p)
                    } else if owner is None {
                        missing_setting_error(e, "GITHUB_OWNER"@, p)
                    } else if repo is None {
                        missing_setting_error(e, "GITHUB_REPO"@, p)
                    } else {
                        user is None && missing_setting_error(e, "GITHUB_USER"@, p)
                    },
                }
            }),
    {
        let github_token = match read_env("GITHUB_TOKEN", profile, vars) {
            Ok(v) => v,
            Err(e) => return Err(e),
        };
        let github_owner = match read_env("GITHUB_OWNER", profile, vars) {
            Ok(v) => v,
            Err(e) => return Err(e),
        };
        let github_repo = match read_env("GITHUB_REPO", profile, vars) {
            Ok(v) => v,
            Err(e) => return Err(e),
        };
        let github_user = match read_env("GITHUB_USER", profile, vars) {
            Ok(v) => v,
            Err(e) => return Err(e),
        };
        Ok(Config { github_token, github_owner, github_repo, github_user })
    }
}

} // verus!
