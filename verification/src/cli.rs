//! The command line: which files a run reads and writes.

use vstd::prelude::*;
use vstd::string::StringExecFns;

verus! {

/// What one run of the program is asked to do.
#[derive(Debug)]
pub struct Invocation {
    /// The volume to read.
    pub input_path: String,
    /// The options file to read, where one is given.
    pub options_path: Option<String>,
    /// The text file to write.
    pub output_path: String,
}

/// The name under which the program is shown when the command line does not
/// give one.
pub open spec fn fallback_program() -> Seq<char> {
    "dicon-nifti-formatting.exe"@
}

/// The name of the program as the command line gives it.
pub open spec fn program_name(args: Seq<String>) -> Seq<char> {
    if args.len() == 0 {
        fallback_program()
    } else {
        args[0]@
    }
}

/// The usage line for a given command line.
pub open spec fn usage_text(args: Seq<String>) -> Seq<char> {
    "Usage: "@ + program_name(args) + " INPUTFILE [OPTIONSFILE] OUTPUTFILE"@
}

/// The message for a command line with too few arguments.
pub open spec fn missing_arguments_text() -> Seq<char> {
    "ERROR: Missing command line argument(s)"@
}

/// What a command line asks for.  `args[0]` is the program's name.  Two
/// arguments after it are input and output, and the default options apply;
/// three or more are input, options file and output, and any further ones
/// are not read.  With fewer than two there is nothing to run.
pub open spec fn invocation_of(args: Seq<String>) -> Option<(Seq<char>, Option<Seq<char>>, Seq<char>)> {
    if args.len() < 3 {
        None
    } else if args.len() == 3 {
        Some((args[1]@, None, args[2]@))
    } else {
        Some((args[1]@, Some(args[2]@), args[3]@))
    }
}

impl Invocation {
    /// The three paths as texts.
    pub open spec fn paths(self) -> (Seq<char>, Option<Seq<char>>, Seq<char>) {
        (
            self.input_path@,
            match self.options_path {
                Some(path) => Some(path@),
                None => None,
            },
            self.output_path@,
        )
    }

    /// Reads the command line.
    pub fn parse(args: &Vec<String>) -> (r: Option<Invocation>)
        ensures
            match r {
                Some(invocation) => invocation_of(args@) == Some(invocation.paths()),
                None => invocation_of(args@) is None,
            },
    {
        if args.len() < 3 {
            None
        } else if args.len() == 3 {
            Some(
                Invocation {
                    input_path: args[1].clone(),
                    options_path: None,
                    output_path: args[2].clone(),
                },
            )
        } else {
            Some(
                Invocation {
                    input_path: args[1].clone(),
                    options_path: Some(args[2].clone()),
                    output_path: args[3].clone(),
                },
            )
        }
    }
}

/// The usage line for a given command line.
pub fn usage_line(args: &Vec<String>) -> (line: String)
    ensures
        line@ == usage_text(args@),
{
    let mut line: String = String::from_str("Usage: ");
    if args.len() == 0 {
        line.append("dicon-nifti-formatting.exe");
    } else {
        line.append(args[0].as_str());
    }
    line.append(" INPUTFILE [OPTIONSFILE] OUTPUTFILE");
    line
}

/// The message for a command line with too few arguments.
pub fn missing_arguments_line() -> (line: String)
    ensures
        line@ == missing_arguments_text(),
{
    String::from_str("ERROR: Missing command line argument(s)")
}

} // verus!
