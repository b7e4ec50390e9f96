//! Command-line options of the interpreter.
use vstd::prelude::*;
use crate::insns::str_eq;
use crate::lexer::{concat_msg, str_chars};

verus! {

/// Options of a run of the interpreter
pub struct Options {
    /// Parse, check and compile the input, but do not run it
    pub no_exec: bool,

    /// Source code given on the command line, to run in place of a file
    pub eval_str: Option<String>,

    /// Input script file to parse and run
    pub input_file: Option<String>,

    /// Name of a bundled example to run in place of an input file
    pub example: Option<String>,

    /// Arguments after the input, handed to the program
    pub rest: Vec<String>,
}

/// What the command line asks for
pub enum Command {
    /// Run a program
    Run(Options),
    /// Print the version
    Version,
    /// List the bundled examples
    ListExamples,
}

/// What a command line asks for, over the characters of its arguments
pub enum CliOutcome {
    Run {
        no_exec: bool,
        eval_str: Option<Seq<char>>,
        input_file: Option<Seq<char>>,
        example: Option<Seq<char>>,
        rest: Seq<Seq<char>>,
    },
    Version,
    ListExamples,
    Error { msg: Seq<char> },
}

/// The arguments of a command line, as character sequences
pub open spec fn args_view(args: Seq<String>) -> Seq<Seq<char>> {
    args.map_values(|a: String| a@)
}

/// Reading a command line from the argument at `idx` on, with the options
/// read before it. The first argument that does not start with a dash is
/// the input file, and the ones after it are handed to the program.
pub open spec fn spec_cli_from(args: Seq<Seq<char>>, idx: int, no_exec: bool, eval_str: Option<Seq<char>>) -> CliOutcome
    decreases args.len() - idx,
{
    if idx < 0 || idx >= args.len() {
        CliOutcome::Run { no_exec, eval_str, input_file: None, example: None, rest: Seq::empty() }
    } else {
        let arg = args[idx];
        if !(arg.len() > 0 && arg[0] == '-') {
            CliOutcome::Run {
                no_exec,
                eval_str,
                input_file: Some(arg),
                example: None,
                rest: args.subrange(idx + 1, args.len() as int),
            }
        } else if arg == "--version"@ {
            CliOutcome::Version
        } else if arg == "--no-exec"@ {
            spec_cli_from(args, idx + 1, true, eval_str)
        } else if arg == "--eval"@ || arg == "-e"@ {
            if idx + 1 >= args.len() {
                CliOutcome::Error { msg: "Missing argument for "@ + arg + " command-line option"@ }
            } else {
                spec_cli_from(args, idx + 2, no_exec, Some(args[idx + 1]))
            }
        } else if arg == "--run-example"@ {
            if idx + 1 >= args.len() {
                CliOutcome::ListExamples
            } else {
                CliOutcome::Run {
                    no_exec,
                    eval_str,
                    input_file: None,
                    example: Some(args[idx + 1]),
                    rest: args.subrange(idx + 2, args.len() as int),
                }
            }
        } else {
            CliOutcome::Error { msg: "unknown option "@ + arg }
        }
    }
}

/// What a command line asks for. Its first argument is the name the
/// interpreter was started by.
pub open spec fn spec_cli(args: Seq<Seq<char>>) -> CliOutcome {
    spec_cli_from(args, 1, false, None)
}

/// What a parsed command line stands for
pub open spec fn command_view(r: Result<Command, String>) -> CliOutcome {
    match r {
        Ok(Command::Run(o)) => CliOutcome::Run {
            no_exec: o.no_exec,
            eval_str: match o.eval_str { Some(s) => Some(s@), None => None },
            input_file: match o.input_file { Some(s) => Some(s@), None => None },
            example: match o.example { Some(s) => Some(s@), None => None },
            rest: args_view(o.rest@),
        },
        Ok(Command::Version) => CliOutcome::Version,
        Ok(Command::ListExamples) => CliOutcome::ListExamples,
        Err(msg) => CliOutcome::Error { msg: msg@ },
    }
}

/// Copies of the arguments from `start` on
fn args_from(args: &Vec<String>, start: usize) -> (r: Vec<String>)
    requires
        start <= args@.len(),
    ensures
        args_view(r@) == args_view(args@).subrange(start as int, args@.len() as int),
{
    let mut out: Vec<String> = Vec::new();
    let mut i = start;
    while i < args.len()
        invariant
            start <= i <= args@.len(),
            out@.len() == i - start,
            args_view(out@) == args_view(args@).subrange(start as int, i as int),
        decreases args@.len() - i,
    {
        let a = args[i].clone();
        let ghost prev = out@;
        out.push(a);
        assert(out@ == prev.push(a));
        assert(a@ == args@[i as int]@);
        assert forall|k: int| 0 <= k < out@.len() implies #[trigger] args_view(out@)[k]
            == args_view(args@).subrange(start as int, i + 1)[k] by {
            assert(prev.len() == i - start);
            assert(args_view(out@)[k] == out@[k]@);
            assert(args_view(args@).subrange(start as int, i + 1)[k] == args@[start + k]@);
            if k < prev.len() {
                assert(args_view(prev)[k] == args_view(args@).subrange(start as int, i as int)[k]);
                assert(args_view(prev)[k] == prev[k]@);
            }
        }
        assert(args_view(out@) =~= args_view(args@).subrange(start as int, i + 1));
        i = i + 1;
    }
    out
}

/// Read the command-line arguments. The first one is the name the
/// interpreter was started by.
pub fn parse_args(args: &Vec<String>) -> (r: Result<Command, String>)
    ensures
        command_view(r) == spec_cli(args_view(args@)),
{
    let ghost view = args_view(args@);
    let mut no_exec = false;
    let mut eval_str: Option<String> = None;

    // Start at argument 1 because 0 is the name of the program
    let mut idx: usize = 1;
    while idx < args.len()
        invariant
            view == args_view(args@),
            1 <= idx,
            spec_cli(view) == spec_cli_from(view, idx as int, no_exec,
                match eval_str { Some(s) => Some(s@), None => None }),
        decreases args@.len() - idx,
    {
        let arg = args[idx].as_str();
        let chars = str_chars(arg);
        proof {
            reveal_strlit("--version");
            reveal_strlit("--no-exec");
            reveal_strlit("--eval");
            reveal_strlit("-e");
            reveal_strlit("--run-example");
            assert(view[idx as int] == arg@);
        }

        // The start of the rest arguments
        if !(chars.len() > 0 && chars[0] == '-') {
            let rest = args_from(args, idx + 1);
            return Ok(Command::Run(Options {
                no_exec,
                eval_str,
                input_file: Some(args[idx].clone()),
                example: None,
                rest,
            }));
        }

        if str_eq(arg, "--version") {
            return Ok(Command::Version);
        } else if str_eq(arg, "--no-exec") {
            no_exec = true;
            idx = idx + 1;
        } else if str_eq(arg, "--eval") || str_eq(arg, "-e") {
            if idx + 1 >= args.len() {
                return Err(concat_msg("Missing argument for ", arg, " command-line option"));
            }
            eval_str = Some(args[idx + 1].clone());
            idx = idx + 2;
        } else if str_eq(arg, "--run-example") {
            // With no name given, show what is available instead of failing
            if idx + 1 >= args.len() {
                return Ok(Command::ListExamples);
            }
            let rest = args_from(args, idx + 2);
            return Ok(Command::Run(Options {
                no_exec,
                eval_str,
                input_file: None,
                example: Some(args[idx + 1].clone()),
                rest,
            }));
        } else {
            let msg = concat_msg("unknown option ", arg, "");
            proof {
                reveal_strlit("");
                assert(msg@ =~= "unknown option "@ + arg@);
            }
            return Err(msg);
        }
    }
    let rest: Vec<String> = Vec::new();
    assert(args_view(rest@) =~= Seq::<Seq<char>>::empty());
    Ok(Command::Run(Options {
        no_exec,
        eval_str,
        input_file: None,
        example: None,
        rest,
    }))
}

} // verus!
