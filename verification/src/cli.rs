//! The command line: `run --scheme <file> --input <folder>` with optional
//! `--output`, `--task-name` and `--note`, or a request for help.
use crate::catalog::opt_view;
use crate::graph::strings_view;
use crate::strs::{concat2, concat3, str_eq};
use vstd::prelude::*;

verus! {

/// The arguments of a `run` command.
#[derive(Debug)]
pub struct CliRunArgs {
    pub scheme: String,
    pub input: String,
    pub output: Option<String>,
    pub task_name: Option<String>,
    pub note: String,
}

/// A command of the command line.
#[derive(Debug)]
pub enum CliCommand {
    Run(CliRunArgs),
    Help,
}

/// The options read so far.
pub struct CliOptions {
    pub scheme: Option<Seq<char>>,
    pub input: Option<Seq<char>>,
    pub output: Option<Seq<char>>,
    pub task_name: Option<Seq<char>>,
    pub note: Seq<char>,
}

/// The options that the flag/value pairs from position `i` on set, on top of
/// `acc`: a later flag overrides an earlier one; a flag without a value, or an
/// unknown flag, is an error.
pub open spec fn parse_options(args: Seq<Seq<char>>, i: int, acc: CliOptions) -> Result<CliOptions, Seq<char>>
    decreases args.len() - i,
{
    if i < 0 || i >= args.len() {
        Ok(acc)
    } else if i + 1 >= args.len() {
        Err("参数 "@ + args[i] + " 缺少值。"@)
    } else {
        let flag = args[i];
        let value = args[i + 1];
        if flag == "--scheme"@ {
            parse_options(args, i + 2, CliOptions { scheme: Some(value), ..acc })
        } else if flag == "--input"@ {
            parse_options(args, i + 2, CliOptions { input: Some(value), ..acc })
        } else if flag == "--output"@ {
            parse_options(args, i + 2, CliOptions { output: Some(value), ..acc })
        } else if flag == "--task-name"@ {
            parse_options(args, i + 2, CliOptions { task_name: Some(value), ..acc })
        } else if flag == "--note"@ {
            parse_options(args, i + 2, CliOptions { note: value, ..acc })
        } else {
            Err("未知参数："@ + flag)
        }
    }
}

/// No option set yet.
pub open spec fn no_options() -> CliOptions {
    CliOptions { scheme: None, input: None, output: None, task_name: None, note: Seq::empty() }
}

/// The view of a parsed command: `None` for help, the options for `run`.
pub open spec fn command_view(c: CliCommand) -> Option<CliOptions> {
    match c {
        CliCommand::Help => None,
        CliCommand::Run(a) => Some(
            CliOptions {
                scheme: Some(a.scheme@),
                input: Some(a.input@),
                output: opt_view(a.output),
                task_name: opt_view(a.task_name),
                note: a.note@,
            },
        ),
    }
}

/// Whether the single argument asks for help.
pub open spec fn is_help_word(a: Seq<char>) -> bool {
    a == "--help"@ || a == "-h"@ || a == "help"@
}

/// What the command line asks for: nothing without arguments; help for a
/// lone help word; otherwise a `run` command whose options must include the
/// scheme and the input.
pub open spec fn parse_cli_spec(args: Seq<Seq<char>>) -> Result<Option<Option<CliOptions>>, Seq<char>> {
    if args.len() == 0 {
        Ok(None)
    } else if args.len() == 1 && is_help_word(args[0]) {
        Ok(Some(None))
    } else if args[0] != "run"@ {
        Err("未知命令。请使用 run --scheme <方案文件> --input <待审文件夹>。"@)
    } else {
        match parse_options(args, 1, no_options()) {
            Err(e) => Err(e),
            Ok(o) => if o.scheme is None {
                Err("缺少参数 --scheme。"@)
            } else if o.input is None {
                Err("缺少参数 --input。"@)
            } else {
                Ok(Some(Some(o)))
            },
        }
    }
}

/// The view of what `parse_cli_args` returns.
pub open spec fn cli_result_view(r: Result<Option<CliCommand>, String>) -> Result<Option<Option<CliOptions>>, Seq<char>> {
    match r {
        Ok(None) => Ok(None),
        Ok(Some(c)) => Ok(Some(command_view(c))),
        Err(e) => Err(e@),
    }
}

/// Reads the command-line arguments (without the program name).
pub fn parse_cli_args(args: Vec<String>) -> (r: Result<Option<CliCommand>, String>)
    ensures
        cli_result_view(r) == parse_cli_spec(strings_view(args@)),
{
    let ghost av = strings_view(args@);
    if args.len() == 0 {
        return Ok(None);
    }
    assert(av[0] == args@[0]@);
    if args.len() == 1 && (str_eq(args[0].as_str(), "--help") || str_eq(args[0].as_str(), "-h") || str_eq(
        args[0].as_str(),
        "help",
    )) {
        return Ok(Some(CliCommand::Help));
    }
    if !str_eq(args[0].as_str(), "run") {
        return Err("未知命令。请使用 run --scheme <方案文件> --input <待审文件夹>。".to_owned());
    }
    let mut scheme: Option<String> = None;
    let mut input: Option<String> = None;
    let mut output: Option<String> = None;
    let mut task_name: Option<String> = None;
    let mut note = String::new();
    let mut index: usize = 1;
    while index < args.len()
        invariant
            av == strings_view(args@),
            av.len() >= 1,
            av[0] == "run"@,
            !(av.len() == 1 && is_help_word(av[0])),
            1 <= index,
            index <= args@.len() + 1,
            parse_options(av, 1, no_options()) == parse_options(
                av,
                index as int,
                CliOptions {
                    scheme: opt_view(scheme),
                    input: opt_view(input),
                    output: opt_view(output),
                    task_name: opt_view(task_name),
                    note: note@,
                },
            ),
        decreases args@.len() + 1 - index,
    {
        let flag = args[index].as_str();
        assert(av[index as int] == flag@);
        let ghost acc = CliOptions {
            scheme: opt_view(scheme),
            input: opt_view(input),
            output: opt_view(output),
            task_name: opt_view(task_name),
            note: note@,
        };
        if index + 1 >= args.len() {
            assert(parse_options(av, index as int, acc) == Err::<CliOptions, Seq<char>>("参数 "@ + flag@ + " 缺少值。"@));
            let e = concat3("参数 ", flag, " 缺少值。");
            assert(parse_cli_spec(av) == Err::<Option<Option<CliOptions>>, Seq<char>>(e@));
            return Err(e);
        }
        let value = args[index + 1].clone();
        assert(av[index + 1] == value@);
        if str_eq(flag, "--scheme") {
            scheme = Some(value);
        } else if str_eq(flag, "--input") {
            input = Some(value);
        } else if str_eq(flag, "--output") {
            output = Some(value);
        } else if str_eq(flag, "--task-name") {
            task_name = Some(value);
        } else if str_eq(flag, "--note") {
            note = value;
        } else {
            assert(parse_options(av, index as int, acc) == Err::<CliOptions, Seq<char>>("未知参数："@ + flag@));
            let e = concat2("未知参数：", flag);
            assert(parse_cli_spec(av) == Err::<Option<Option<CliOptions>>, Seq<char>>(e@));
            return Err(e);
        }
        index += 2;
    }
    let scheme = match scheme {
        Some(s) => s,
        None => {
            return Err("缺少参数 --scheme。".to_owned());
        },
    };
    let input = match input {
        Some(s) => s,
        None => {
            return Err("缺少参数 --input。".to_owned());
        },
    };
    Ok(Some(CliCommand::Run(CliRunArgs { scheme, input, output, task_name, note })))
}

/// The task name of a command-line run: the given one when it is not blank
/// (trimmed), else the scheme's name.
pub open spec fn cli_task_name_spec(task_name: Option<Seq<char>>, scheme_name: Seq<char>) -> Seq<char> {
    match task_name {
        Some(t) => if crate::strs::trim_spec(t).len() > 0 {
            crate::strs::trim_spec(t)
        } else {
            scheme_name
        },
        None => scheme_name,
    }
}

/// The task name of a command-line run.
pub fn cli_task_name(task_name: &Option<String>, scheme_name: &str) -> (r: String)
    ensures
        r@ == cli_task_name_spec(opt_view(*task_name), scheme_name@),
{
    match task_name {
        Some(t) => {
            let tt = crate::strs::trim(t.as_str());
            if tt.as_str().is_empty() {
                scheme_name.to_owned()
            } else {
                tt
            }
        },
        None => scheme_name.to_owned(),
    }
}

/// The input note of a command-line run: the task name, and the note when it
/// is not blank (trimmed), each on a line of its own.
pub open spec fn cli_input_note_spec(task_name: Seq<char>, note: Seq<char>) -> Seq<char> {
    if crate::strs::trim_spec(note).len() == 0 {
        "任务名称："@ + task_name
    } else {
        "任务名称："@ + task_name + "\n任务说明："@ + crate::strs::trim_spec(note)
    }
}

/// The input note of a command-line run.
pub fn cli_input_note(task_name: &str, note: &str) -> (r: String)
    ensures
        r@ == cli_input_note_spec(task_name@, note@),
{
    let t = crate::strs::trim(note);
    if t.as_str().is_empty() {
        concat2("任务名称：", task_name)
    } else {
        let mut s = concat3("任务名称：", task_name, "\n任务说明：");
        s.append(t.as_str());
        s
    }
}

} // verus!
