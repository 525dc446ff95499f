//! Building external command invocations.
//!
//! The reconcilers never run commands themselves: they return planned
//! invocations (`Cmd`), and the embedding driver executes or prints them.
//! `get_command` turns a planned argument list into the final argv,
//! prefixing `sudo` for operations that need elevation and refusing an
//! empty command outright.

use vstd::prelude::*;

use crate::error::Error;

verus! {

/// Permission level under which an external command is run.
#[derive(PartialEq, Eq, Debug, Copy, Clone, Structural)]
pub enum Perms {
    Root,
    User,
}

/// One planned command invocation: the words of the command line and the
/// permission level to run it under.
#[derive(Debug)]
pub struct Cmd {
    pub args: Vec<String>,
    pub perms: Perms,
}

impl Cmd {
    /// The words of the final argv: `sudo` first when elevation is needed.
    pub open spec fn spec_argv(self) -> Seq<Seq<char>> {
        if self.perms is Root {
            seq!["sudo"@] + self.args.deep_view()
        } else {
            self.args.deep_view()
        }
    }
}

/// The final argv for `args` under `perms`: `sudo` is prefixed for root
/// operations, and an empty argument list is refused.
pub fn get_command(args: Vec<String>, perms: Perms) -> (r: Result<Vec<String>, Error>)
    ensures
        r is Err <==> args@.len() == 0,
        r matches Err(e) ==> e is EmptyCommand,
        r matches Ok(v) ==> v.deep_view() == (Cmd { args, perms }).spec_argv(),
{
    if args.len() == 0 {
        return Err(Error::EmptyCommand);
    }
    if perms == Perms::Root {
        let ghost orig = args.deep_view();
        let mut v: Vec<String> = Vec::new();
        v.push("sudo".to_owned());
        let mut rest = args;
        v.append(&mut rest);
        proof {
            assert(v.deep_view() =~= seq!["sudo"@] + orig);
        }
        Ok(v)
    } else {
        Ok(args)
    }
}

} // verus!
