//! How the program was invoked: explicitly with a store path and a command,
//! or under the name of a store command, with the store found implicitly.
use vstd::prelude::*;

use crate::bytes::{bytes_eq, join, join_path};
use vstd::utf8::encode_utf8;

verus! {

/// The exit status for too few arguments.
pub const USAGE_STATUS: i32 = 1;

/// The exit status when no store can be found for a multicall invocation.
pub const NO_STORE_STATUS: i32 = 2;

/// The names under which the program runs the command of that name, with
/// the store found implicitly.
pub open spec fn known_commands() -> Seq<Seq<u8>> {
    seq![
        seq![110u8, 105u8, 120u8],
        seq![110u8, 105u8, 120u8, 45u8, 98u8, 117u8, 105u8, 108u8, 100u8],
        seq![110u8, 105u8, 120u8, 45u8, 99u8, 104u8, 97u8, 110u8, 110u8, 101u8, 108u8],
        seq![110u8, 105u8, 120u8, 45u8, 99u8, 111u8, 108u8, 108u8, 101u8, 99u8, 116u8, 45u8, 103u8, 97u8, 114u8, 98u8, 97u8, 103u8, 101u8],
        seq![110u8, 105u8, 120u8, 45u8, 99u8, 111u8, 112u8, 121u8, 45u8, 99u8, 108u8, 111u8, 115u8, 117u8, 114u8, 101u8],
        seq![110u8, 105u8, 120u8, 45u8, 100u8, 97u8, 101u8, 109u8, 111u8, 110u8],
        seq![110u8, 105u8, 120u8, 45u8, 101u8, 110u8, 118u8],
        seq![110u8, 105u8, 120u8, 45u8, 104u8, 97u8, 115u8, 104u8],
        seq![110u8, 105u8, 120u8, 45u8, 105u8, 110u8, 115u8, 116u8, 97u8, 110u8, 116u8, 105u8, 97u8, 116u8, 101u8],
        seq![110u8, 105u8, 120u8, 45u8, 112u8, 114u8, 101u8, 102u8, 101u8, 116u8, 99u8, 104u8, 45u8, 117u8, 114u8, 108u8],
        seq![110u8, 105u8, 120u8, 45u8, 115u8, 104u8, 101u8, 108u8, 108u8],
        seq![110u8, 105u8, 120u8, 45u8, 115u8, 116u8, 111u8, 114u8, 101u8],
    ]
}

/// Whether `name` is one of the known command names.
pub fn is_known_command(name: &[u8]) -> (r: bool)
    ensures
        r == known_commands().contains(name@),
{
    if bytes_eq(name, vec![110u8, 105u8, 120u8].as_slice()) {
        return true;
    }
    if bytes_eq(name, vec![110u8, 105u8, 120u8, 45u8, 98u8, 117u8, 105u8, 108u8, 100u8].as_slice()) {
        return true;
    }
    if bytes_eq(name, vec![110u8, 105u8, 120u8, 45u8, 99u8, 104u8, 97u8, 110u8, 110u8, 101u8, 108u8].as_slice()) {
        return true;
    }
    if bytes_eq(name, vec![110u8, 105u8, 120u8, 45u8, 99u8, 111u8, 108u8, 108u8, 101u8, 99u8, 116u8, 45u8, 103u8, 97u8, 114u8, 98u8, 97u8, 103u8, 101u8].as_slice()) {
        return true;
    }
    if bytes_eq(name, vec![110u8, 105u8, 120u8, 45u8, 99u8, 111u8, 112u8, 121u8, 45u8, 99u8, 108u8, 111u8, 115u8, 117u8, 114u8, 101u8].as_slice()) {
        return true;
    }
    if bytes_eq(name, vec![110u8, 105u8, 120u8, 45u8, 100u8, 97u8, 101u8, 109u8, 111u8, 110u8].as_slice()) {
        return true;
    }
    if bytes_eq(name, vec![110u8, 105u8, 120u8, 45u8, 101u8, 110u8, 118u8].as_slice()) {
        return true;
    }
    if bytes_eq(name, vec![110u8, 105u8, 120u8, 45u8, 104u8, 97u8, 115u8, 104u8].as_slice()) {
        return true;
    }
    if bytes_eq(name, vec![110u8, 105u8, 120u8, 45u8, 105u8, 110u8, 115u8, 116u8, 97u8, 110u8, 116u8, 105u8, 97u8, 116u8, 101u8].as_slice()) {
        return true;
    }
    if bytes_eq(name, vec![110u8, 105u8, 120u8, 45u8, 112u8, 114u8, 101u8, 102u8, 101u8, 116u8, 99u8, 104u8, 45u8, 117u8, 114u8, 108u8].as_slice()) {
        return true;
    }
    if bytes_eq(name, vec![110u8, 105u8, 120u8, 45u8, 115u8, 104u8, 101u8, 108u8, 108u8].as_slice()) {
        return true;
    }
    if bytes_eq(name, vec![110u8, 105u8, 120u8, 45u8, 115u8, 116u8, 111u8, 114u8, 101u8].as_slice()) {
        return true;
    }
    proof {
        assert(!known_commands().contains(name@)) by {
            if known_commands().contains(name@) {
                let k = choose|k: int| 0 <= k < known_commands().len() && known_commands()[k] == name@;
                assert(0 <= k < 12);
            }
        }
    }
    false
}

/// What the arguments ask for.
#[derive(Debug)]
pub enum Invocation {
    /// Run `command` (the program and its arguments) with the store at `store`.
    Explicit { store: String, command: Vec<String> },
    /// Run `command` with the store found implicitly.
    Multicall { command: Vec<String> },
    /// Too few arguments: print the usage and exit with `USAGE_STATUS`.
    Usage,
}

/// Reads the arguments `args` (the program's own path first) of a program
/// whose file name is `program`, where it has one that is text. Under a known
/// command name, that command runs with all the arguments after the
/// program's path; otherwise a store path and a command must follow.
pub fn parse_invocation(program: Option<String>, args: Vec<String>) -> (r: Invocation)
    ensures
        match program {
            Some(p) if known_commands().contains(encode_utf8(p@)) => match r {
                Invocation::Multicall { command } => command@ == seq![p] + if args@.len() > 0 {
                    args@.drop_first()
                } else {
                    args@
                },
                _ => false,
            },
            _ => if args@.len() < 3 {
                r is Usage
            } else {
                match r {
                    Invocation::Explicit { store, command } => store == args@[1] && command@
                        == args@.subrange(2, args@.len() as int),
                    _ => false,
                }
            },
        },
{
    let mut args = args;
    match program {
        Some(p) => {
            if is_known_command(p.as_str().as_bytes()) {
                if args.len() > 0 {
                    args.remove(0);
                }
                args.insert(0, p);
                return Invocation::Multicall { command: args };
            }
        },
        None => {},
    }
    if args.len() < 3 {
        return Invocation::Usage;
    }
    let command = args.split_off(2);
    let store = args.remove(1);
    Invocation::Explicit { store, command }
}

/// `nix-user-chroot`: the directory under the user's data directory that
/// holds the store by convention.
pub open spec fn default_store_name() -> Seq<u8> {
    seq![110u8, 105u8, 120u8, 45u8, 117u8, 115u8, 101u8, 114u8, 45u8, 99u8, 104u8, 114u8, 111u8, 111u8, 116u8]
}

/// The conventional store directory under the user's data directory
/// `data_home`.
pub fn default_store_dir(data_home: &[u8]) -> (r: Vec<u8>)
    ensures
        r@ == join(data_home@, default_store_name()),
{
    join_path(data_home, vec![110u8, 105u8, 120u8, 45u8, 117u8, 115u8, 101u8, 114u8, 45u8, 99u8, 104u8, 114u8, 111u8, 111u8, 116u8].as_slice())
}

/// Where the store of a multicall invocation is: `override_dir`, the value
/// of the variable that names it, unless that is unset or empty; otherwise
/// `default_dir`, the conventional directory, which `default_exists` says is
/// there. `Err` holds the conventional directory that is missing.
pub fn get_implicit_nixdir(
    override_dir: Option<String>,
    default_dir: Vec<u8>,
    default_exists: bool,
) -> (r: Result<Vec<u8>, Vec<u8>>)
    ensures
        match override_dir {
            Some(v) if v@.len() > 0 => r == Ok::<Vec<u8>, Vec<u8>>(r->Ok_0) && r->Ok_0@
                == encode_utf8(v@),
            _ => if default_exists {
                r == Ok::<Vec<u8>, Vec<u8>>(default_dir)
            } else {
                r == Err::<Vec<u8>, Vec<u8>>(default_dir)
            },
        },
{
    match override_dir {
        Some(v) => {
            let bytes = v.as_str().as_bytes();
            if bytes.len() > 0 {
                let mut out: Vec<u8> = Vec::new();
                crate::bytes::append_bytes(&mut out, bytes);
                proof {
                    assert(Seq::<u8>::empty() + bytes@ =~= bytes@);
                    assert(v@.len() > 0);
                }
                return Ok(out);
            }
        },
        None => {},
    }
    if default_exists {
        Ok(default_dir)
    } else {
        Err(default_dir)
    }
}

/// `NIX_CONF_DIR`: the variable that points the store's tools at their
/// configuration.
pub open spec fn config_dir_var() -> Seq<u8> {
    seq![78u8, 73u8, 88u8, 95u8, 67u8, 79u8, 78u8, 70u8, 95u8, 68u8, 73u8, 82u8]
}

/// `/nix/etc/nix`: the configuration directory inside the mounted store.
pub open spec fn config_dir() -> Seq<u8> {
    seq![47u8, 110u8, 105u8, 120u8, 47u8, 101u8, 116u8, 99u8, 47u8, 110u8, 105u8, 120u8]
}

/// The variable and value set for the command run in the new root: the
/// configuration directory under the store's mount point.
pub fn launch_env() -> (r: (Vec<u8>, Vec<u8>))
    ensures
        r.0@ == config_dir_var(),
        r.1@ == config_dir(),
        r.1@.subrange(0, 5) == seq![47u8] + crate::setup::store_name() + seq![47u8],
{
    let r = (vec![78u8, 73u8, 88u8, 95u8, 67u8, 79u8, 78u8, 70u8, 95u8, 68u8, 73u8, 82u8], vec![47u8, 110u8, 105u8, 120u8, 47u8, 101u8, 116u8, 99u8, 47u8, 110u8, 105u8, 120u8]);
    proof {
        assert(r.1@.subrange(0, 5) =~= seq![47u8] + crate::setup::store_name() + seq![47u8]);
    }
    r
}

} // verus!
