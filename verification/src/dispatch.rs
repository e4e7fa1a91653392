//! Building the single external build invocation from the affected set.
//!
//! Spawning the process, and printing the would-be invocation on a dry run,
//! are the caller's business; the argument list itself is computed here: the
//! command verb first, then one target-selection argument pair per affected
//! package name. An empty affected set means nothing is dispatched at all.

use vstd::prelude::*;

verus! {

use crate::strings_view;

/// The command verb of one invocation, a small fixed set.
#[derive(Debug, Clone, Copy, PartialEq, Eq, Structural)]
pub enum CommandVerb {
    /// Compile the affected packages.
    Build,
    /// Type-check the affected packages.
    Check,
    /// Lint the affected packages.
    Clippy,
    /// Run the affected packages.
    Run,
    /// Test the affected packages.
    Test,
}

impl CommandVerb {
    /// The subcommand word handed to the external build tool.
    pub open spec fn spec_arg(self) -> Seq<char> {
        match self {
            CommandVerb::Build => "build"@,
            CommandVerb::Check => "check"@,
            CommandVerb::Clippy => "clippy"@,
            CommandVerb::Run => "run"@,
            CommandVerb::Test => "test"@,
        }
    }

    /// Writes the subcommand word out.
    pub fn as_arg(&self) -> (r: String)
        ensures
            r@ == self.spec_arg(),
    {
        match self {
            CommandVerb::Build => String::from_str("build"),
            CommandVerb::Check => String::from_str("check"),
            CommandVerb::Clippy => String::from_str("clippy"),
            CommandVerb::Run => String::from_str("run"),
            CommandVerb::Test => String::from_str("test"),
        }
    }
}

/// The texts of the argument list dispatched for `verb` and the affected
/// names `affected`: the verb's word, then `-p` and the name, per name.
pub open spec fn dispatch_args(verb: CommandVerb, affected: Seq<String>) -> Seq<Seq<char>>
    decreases affected.len(),
{
    if affected.len() == 0 {
        seq![verb.spec_arg()]
    } else {
        dispatch_args(verb, affected.drop_last()) + seq!["-p"@, affected.last()@]
    }
}

/// The argument list of the one external build invocation: the command verb
/// first, then `-p <name>` for every affected package name, in order.
pub fn invocation_args(verb: &CommandVerb, affected: &Vec<String>) -> (args: Vec<String>)
    ensures
        strings_view(args@) == dispatch_args(*verb, affected@),
{
    let mut args: Vec<String> = Vec::new();
    args.push(verb.as_arg());
    proof {
        assert(affected@.subrange(0, 0) =~= Seq::<String>::empty());
        assert(strings_view(args@) =~= dispatch_args(*verb, affected@.subrange(0, 0)));
    }
    let mut i: usize = 0;
    while i < affected.len()
        invariant
            i <= affected@.len(),
            strings_view(args@) == dispatch_args(*verb, affected@.subrange(0, i as int)),
        decreases affected@.len() - i,
    {
        let flag: String = String::from_str("-p");
        let name: String = affected[i].clone();
        proof {
            assert(affected@.subrange(0, i + 1).drop_last() =~= affected@.subrange(0, i as int));
            assert(affected@.subrange(0, i + 1).last() == affected@[i as int]);
            assert(strings_view(args@.push(flag).push(name)) =~= strings_view(args@)
                + seq![flag@, name@]);
        }
        args.push(flag);
        args.push(name);
        i = i + 1;
    }
    proof {
        assert(affected@.subrange(0, affected@.len() as int) =~= affected@);
    }
    args
}

} // verus!
