//! Choosing the shell that new panes run. An explicit choice must fail
//! visibly; only the implicit login shell falls back to `/bin/sh`.
use vstd::prelude::*;
use crate::text::push_str;

verus! {

/// The shell asked for explicitly: the environment override, else the configuration.
pub open spec fn explicit_shell<'a>(override_shell: Option<&'a str>, configured: Option<&'a str>) -> Option<&'a str> {
    match override_shell {
        Some(name) => Some(name),
        None => configured,
    }
}

/// The login shell, where one is set and not empty.
pub open spec fn usable_login<'a>(login_shell: Option<&'a str>) -> Option<&'a str> {
    match login_shell {
        Some(name) => if name@.len() > 0 {
            Some(name)
        } else {
            None
        },
        None => None,
    }
}

pub open spec fn missing_shell_message(name: Seq<char>) -> Seq<char> {
    "cannot start shell '"@ + name + "': executable not found or not executable"@
}

pub open spec fn no_shell_message() -> Seq<char> {
    "cannot find a usable shell; set RUSTMUX_SHELL or shell in config.toml"@
}

/// The error for an explicitly chosen shell that cannot be run.
fn missing_shell(name: &str) -> (r: String)
    ensures
        r@ == missing_shell_message(name@),
{
    let mut message = String::new();
    push_str(&mut message, "cannot start shell '");
    push_str(&mut message, name);
    push_str(&mut message, "': executable not found or not executable");
    message
}

/// Picks the shell to run. `resolve` looks a name up and gives the path of
/// the executable it names, or `None` where there is none. An explicit choice
/// (`override_shell`, else `configured`) is resolved alone, and its failure is
/// an error; otherwise the login shell is tried, then `/bin/sh`.
pub fn select_shell(
    override_shell: Option<&str>,
    configured: Option<&str>,
    login_shell: Option<&str>,
    resolve: impl Fn(&str) -> Option<String>,
) -> (r: Result<String, String>)
    requires
        forall|name: &str| resolve.requires((name,)),
    ensures
        match explicit_shell(override_shell, configured) {
            Some(name) => match r {
                Ok(path) => resolve.ensures((name,), Some(path)),
                Err(e) => resolve.ensures((name,), None) && e@ == missing_shell_message(name@),
            },
            None => match r {
                Ok(path) => match usable_login(login_shell) {
                    Some(login) => resolve.ensures((login,), Some(path)) || (resolve.ensures((login,), None)
                        && resolve.ensures(("/bin/sh",), Some(path))),
                    None => resolve.ensures(("/bin/sh",), Some(path)),
                },
                Err(e) => (match usable_login(login_shell) {
                    Some(login) => resolve.ensures((login,), None),
                    None => true,
                }) && resolve.ensures(("/bin/sh",), None) && e@ == no_shell_message(),
            },
        },
{
    let explicit = match override_shell {
        Some(name) => Some(name),
        None => configured,
    };
    if let Some(name) = explicit {
        return match resolve(name) {
            Some(path) => Ok(path),
            None => Err(missing_shell(name)),
        };
    }
    let login = match login_shell {
        Some(name) => if name.unicode_len() > 0 {
            Some(name)
        } else {
            None
        },
        None => None,
    };
    if let Some(name) = login {
        if let Some(path) = resolve(name) {
            return Ok(path);
        }
    }
    match resolve("/bin/sh") {
        Some(path) => Ok(path),
        None => {
            let mut message = String::new();
            push_str(&mut message, "cannot find a usable shell; set RUSTMUX_SHELL or shell in config.toml");
            Err(message)
        },
    }
}

} // verus!
