//! Where an installation keeps its files, and how presence is verified.
use vstd::prelude::*;

use crate::presence_verification::PresenceVerificationMethod;
use crate::text::{append_str, chars_of, copy_str, push_char};

verus! {

/// Seconds to wait for presence verification by default.
pub const DEFAULT_PV_TIMEOUT: u8 = 10;

#[derive(Clone, Debug)]
pub struct Config {
    /// Module connection string.
    pub tpm: String,
    /// Directory of the system-wide files; absolute.
    pub system_data_path: String,
    /// Directory of the user's files; relative paths are taken from the user's home.
    pub user_data_path: String,
    /// Longest wait for presence verification, in seconds.
    pub pv_timeout: u8,
    /// How presence is verified.
    pub pv_method: PresenceVerificationMethod,
}

/// A path that starts at the root.
pub open spec fn is_absolute(p: Seq<char>) -> bool {
    p.len() > 0 && p[0] == '/'
}

/// `rel` appended to `base` with one separator, as `Path::join` does; an absolute `rel`
/// replaces `base`.
pub open spec fn join_path(base: Seq<char>, rel: Seq<char>) -> Seq<char> {
    if is_absolute(rel) || base.len() == 0 {
        rel
    } else if base.last() == '/' {
        base + rel
    } else {
        base + seq!['/'] + rel
    }
}

/// Joins two paths.
pub fn join(base: &str, rel: &str) -> (r: String)
    ensures
        r@ == join_path(base@, rel@),
{
    let b = chars_of(base);
    let p = chars_of(rel);
    if (p.len() > 0 && p[0] == '/') || b.len() == 0 {
        return copy_str(rel);
    }
    let mut r = copy_str(base);
    if b[b.len() - 1] != '/' {
        push_char(&mut r, '/');
    }
    append_str(&mut r, rel);
    r
}

/// Makes a relative path relative to the user's home directory.
pub fn local_path(file: &str, home_dir: &str) -> (r: String)
    requires
        !is_absolute(file@),
    ensures
        r@ == join_path(home_dir@, file@),
{
    join(home_dir, file)
}

/// Makes a path absolute against the current directory, without touching the file system.
pub fn absolute_path(path: &str, current_dir: &str) -> (r: String)
    ensures
        r@ == if is_absolute(path@) {
            path@
        } else {
            join_path(current_dir@, path@)
        },
{
    join(current_dir, path)
}

impl Config {
    /// A configuration with defaults for what is not given: the system directory under the
    /// home directory for a local install and `/var/lib/totpm` otherwise, the user directory
    /// `.local/state/totpm`, a ten second timeout, and no presence verification for a local
    /// install but fprintd otherwise.
    pub fn default(
        local: bool,
        tpm: String,
        system_data_path: Option<String>,
        user_data_path: Option<String>,
        presence_verification: Option<PresenceVerificationMethod>,
        home_dir: &str,
        current_dir: &str,
    ) -> (r: Self)
        ensures
            r.tpm@ == tpm@,
            r.system_data_path@ == (match system_data_path {
                Some(p) => if is_absolute(p@) {
                    p@
                } else {
                    join_path(current_dir@, p@)
                },
                None => if local {
                    join_path(home_dir@, ".local/state/totpm/system"@)
                } else {
                    "/var/lib/totpm"@
                },
            }),
            r.user_data_path@ == (match user_data_path {
                Some(p) => p@,
                None => ".local/state/totpm"@,
            }),
            r.pv_timeout == DEFAULT_PV_TIMEOUT,
            r.pv_method == (match presence_verification {
                Some(m) => m,
                None => if local {
                    PresenceVerificationMethod::Disabled
                } else {
                    PresenceVerificationMethod::Fprintd
                },
            }),
    {
        let system = match &system_data_path {
            Some(p) => absolute_path(p.as_str(), current_dir),
            None => if local {
                proof {
                    reveal_strlit(".local/state/totpm/system");
                }
                local_path(".local/state/totpm/system", home_dir)
            } else {
                copy_str("/var/lib/totpm")
            },
        };
        let user = match user_data_path {
            Some(p) => p,
            None => copy_str(".local/state/totpm"),
        };
        Config {
            tpm,
            system_data_path: system,
            user_data_path: user,
            pv_timeout: DEFAULT_PV_TIMEOUT,
            pv_method: match presence_verification {
                Some(m) => m,
                None => if local {
                    PresenceVerificationMethod::Disabled
                } else {
                    PresenceVerificationMethod::Fprintd
                },
            },
        }
    }

    /// The file that holds the root key's auth value.
    pub fn auth_value_path(&self) -> (r: String)
        ensures
            r@ == join_path(self.system_data_path@, "auth_value"@),
    {
        join(self.system_data_path.as_str(), "auth_value")
    }

    /// The file that holds the root key's persistent handle.
    pub fn primary_key_handle_path(&self) -> (r: String)
        ensures
            r@ == join_path(self.system_data_path@, "primary_key_handle"@),
    {
        join(self.system_data_path.as_str(), "primary_key_handle")
    }

    /// The user's secrets database; a relative user directory is taken from `home_dir`.
    pub fn secrets_db_path(&self, home_dir: &str) -> (r: String)
        ensures
            r@ == if is_absolute(self.user_data_path@) {
                join_path(self.user_data_path@, "secrets.sqlite"@)
            } else {
                join_path(join_path(home_dir@, self.user_data_path@), "secrets.sqlite"@)
            },
    {
        let user = self.user_data_path.as_str();
        if is_absolute_path(user) {
            join(user, "secrets.sqlite")
        } else {
            let dir = join(home_dir, user);
            join(dir.as_str(), "secrets.sqlite")
        }
    }
}

/// Whether a path starts at the root.
pub fn is_absolute_path(p: &str) -> (r: bool)
    ensures
        r == is_absolute(p@),
{
    let cs = chars_of(p);
    cs.len() > 0 && cs[0] == '/'
}

/// The configuration file to use: the one given (made absolute); else the user's own
/// `.config/totpm.conf` when a local install is forced or that file exists; else the
/// system-wide `/etc/totpm.conf`.
pub fn resolve_config_path(
    force_local: bool,
    config: Option<&str>,
    local_config_exists: bool,
    home_dir: &str,
    current_dir: &str,
) -> (r: String)
    ensures
        r@ == match config {
            Some(p) => if is_absolute(p@) {
                p@
            } else {
                join_path(current_dir@, p@)
            },
            None => if force_local || local_config_exists {
                join_path(home_dir@, ".config/totpm.conf"@)
            } else {
                "/etc/totpm.conf"@
            },
        },
{
    match config {
        Some(p) => absolute_path(p, current_dir),
        None => if force_local || local_config_exists {
            proof {
                reveal_strlit(".config/totpm.conf");
            }
            local_path(".config/totpm.conf", home_dir)
        } else {
            copy_str("/etc/totpm.conf")
        },
    }
}

} // verus!
