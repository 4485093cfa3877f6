//! The command line.

use crate::purge::{purge_plan_report, report_lines, PurgePlan};
use crate::screens::version;
use crate::text::{join, joined, same_text, text_of, texts};
use vstd::prelude::*;

verus! {

/// What the command line asks for.
#[derive(Debug, PartialEq)]
pub enum Invocation {
    /// The interface, or just a purge plan, with the configuration file given.
    Run { purge_plan: bool, config_file: Option<String> },
    Version,
    Help,
    /// An option that needs a file has none.
    MissingFile(String),
    UnknownOption(String),
}

/// What the command line asks for, as text.
pub enum InvocationView {
    Run { purge_plan: bool, config_file: Option<Seq<char>> },
    Version,
    Help,
    MissingFile(Seq<char>),
    UnknownOption(Seq<char>),
}

impl View for Invocation {
    type V = InvocationView;

    open spec fn view(&self) -> InvocationView {
        match self {
            Invocation::Run { purge_plan, config_file } => InvocationView::Run {
                purge_plan: *purge_plan,
                config_file: text_of(*config_file),
            },
            Invocation::Version => InvocationView::Version,
            Invocation::Help => InvocationView::Help,
            Invocation::MissingFile(arg) => InvocationView::MissingFile(arg@),
            Invocation::UnknownOption(arg) => InvocationView::UnknownOption(arg@),
        }
    }
}

/// What the arguments `args` ask for, after others that asked for a purge
/// plan or not and gave a configuration file or not. The last file given
/// counts; the first argument that asks for something else, or is wrong,
/// decides.
pub open spec fn parsed(
    args: Seq<Seq<char>>,
    purge_plan: bool,
    config_file: Option<Seq<char>>,
) -> InvocationView
    decreases args.len(),
{
    if args.len() == 0 {
        InvocationView::Run { purge_plan, config_file }
    } else if args[0] == "--purge-plan"@ {
        parsed(args.skip(1), true, config_file)
    } else if args[0] == "--config"@ || args[0] == "-c"@ {
        if args.len() < 2 {
            InvocationView::MissingFile(args[0])
        } else {
            parsed(args.skip(2), purge_plan, Some(args[1]))
        }
    } else if args[0] == "--version"@ || args[0] == "-V"@ {
        InvocationView::Version
    } else if args[0] == "--help"@ || args[0] == "-h"@ {
        InvocationView::Help
    } else {
        InvocationView::UnknownOption(args[0])
    }
}

/// Reads the command line, without the name of the program.
pub fn parse_arguments(args: &Vec<String>) -> (invocation: Invocation)
    ensures
        invocation@ == parsed(texts(args@), false, None),
{
    let ghost all = texts(args@);
    let mut purge_plan = false;
    let mut config_file: Option<String> = None;
    let end: usize = args.len();
    let mut i: usize = 0;
    assert(all.skip(0) =~= all);
    while i < end
        invariant
            i <= end,
            end == args@.len(),
            all == texts(args@),
            parsed(all, false, None) == parsed(
                all.skip(i as int),
                purge_plan,
                text_of(config_file),
            ),
        decreases end - i,
    {
        let arg = args[i].as_str();
        assert(all.skip(i as int)[0] == arg@);
        assert(all.skip(i as int).skip(1) =~= all.skip(i + 1));
        if same_text(arg, "--purge-plan") {
            purge_plan = true;
            i = i + 1;
        } else if same_text(arg, "--config") || same_text(arg, "-c") {
            if end - i < 2 {
                return Invocation::MissingFile(arg.to_owned());
            }
            assert(all.skip(i as int).skip(2) =~= all.skip(i + 2));
            assert(all.skip(i as int)[1] == args@[i + 1]@);
            config_file = Some(args[i + 1].clone());
            i = i + 2;
        } else if same_text(arg, "--version") || same_text(arg, "-V") {
            return Invocation::Version;
        } else if same_text(arg, "--help") || same_text(arg, "-h") {
            return Invocation::Help;
        } else {
            return Invocation::UnknownOption(arg.to_owned());
        }
    }
    assert(all.skip(i as int) =~= Seq::empty());
    Invocation::Run { purge_plan, config_file }
}

/// A text to print at once, and the exit code to end with.
#[derive(Debug, PartialEq)]
pub struct Answer {
    pub text: String,
    pub is_error: bool,
    pub code: i32,
}

/// The help.
pub open spec fn help_text() -> Seq<char> {
    "btrbk_tui "@ + "2.8.0"@ + " - restore Btrfs snapshots created with btrbk\n\n"@
        + "Usage: sudo btrbk_tui [OPTION]...\n\n"@
        + "  -c, --config FILE  use FILE as configuration (default: ~/.config/btrbk_tui/config.json\n"@
        + "                     of the user who ran sudo)\n"@
        + "  --purge-plan       show what Purge OLD would delete, then exit\n"@
        + "  -V, --version      show the version\n"@
        + "  -h, --help         show this help"@
}

/// What anyone but root is told.
pub open spec fn refusal_text() -> Seq<char> {
    "Error: This tool requires root privileges.\n"@ + "Please run with sudo."@
}

fn help() -> (text: String)
    ensures
        text@ == help_text(),
{
    let mut text = "btrbk_tui ".to_owned();
    text.append(version());
    text.append(" - restore Btrfs snapshots created with btrbk\n\n");
    text.append("Usage: sudo btrbk_tui [OPTION]...\n\n");
    text.append("  -c, --config FILE  use FILE as configuration (default: ~/.config/btrbk_tui/config.json\n");
    text.append("                     of the user who ran sudo)\n");
    text.append("  --purge-plan       show what Purge OLD would delete, then exit\n");
    text.append("  -V, --version      show the version\n");
    text.append("  -h, --help         show this help");
    text
}

impl Invocation {
    /// What to print at once, for an invocation that asks for nothing more or
    /// that the user with the effective id `euid` may not have: only root may
    /// run the tool.
    pub fn answer(&self, euid: u32) -> (answer: Option<Answer>)
        ensures
            match answer {
                Some(a) => match self@ {
                    InvocationView::Run { .. } => euid != 0 && a.text@ == refusal_text()
                        && a.is_error && a.code == 1,
                    InvocationView::Version => a.text@ == "btrbk_tui "@ + "2.8.0"@
                        && !a.is_error && a.code == 0,
                    InvocationView::Help => a.text@ == help_text() && !a.is_error && a.code == 0,
                    InvocationView::MissingFile(arg) => a.text@ == "Error: "@ + arg
                        + " needs a file (try --help)"@ && a.is_error && a.code == 2,
                    InvocationView::UnknownOption(arg) => a.text@ == "Error: unknown option '"@
                        + arg + "' (try --help)"@ && a.is_error && a.code == 2,
                },
                None => self@ is Run && euid == 0,
            },
    {
        match self {
            Invocation::Run { .. } => if euid == 0 {
                None
            } else {
                let mut text = "Error: This tool requires root privileges.\n".to_owned();
                text.append("Please run with sudo.");
                Some(Answer { text, is_error: true, code: 1 })
            },
            Invocation::Version => {
                let mut text = "btrbk_tui ".to_owned();
                text.append(version());
                Some(Answer { text, is_error: false, code: 0 })
            },
            Invocation::Help => Some(Answer { text: help(), is_error: false, code: 0 }),
            Invocation::MissingFile(arg) => {
                let mut text = "Error: ".to_owned();
                text.append(arg.as_str());
                text.append(" needs a file (try --help)");
                Some(Answer { text, is_error: true, code: 2 })
            },
            Invocation::UnknownOption(arg) => {
                let mut text = "Error: unknown option '".to_owned();
                text.append(arg.as_str());
                text.append("' (try --help)");
                Some(Answer { text, is_error: true, code: 2 })
            },
        }
    }
}

/// What to print of a purge plan: what would be deleted, or why there is no
/// plan.
pub fn print_purge_plan(plan: &Result<PurgePlan, String>) -> (answer: Answer)
    ensures
        match *plan {
            Ok(plan) => answer.text@ == join(report_lines(plan@), "\n"@) && !answer.is_error
                && answer.code == 0,
            Err(reason) => answer.text@ == "Error: "@ + reason@ && answer.is_error && answer.code
                == 1,
        },
{
    match plan {
        Ok(plan) => Answer {
            text: joined(&purge_plan_report(plan), "\n"),
            is_error: false,
            code: 0,
        },
        Err(reason) => {
            let mut text = "Error: ".to_owned();
            text.append(reason.as_str());
            Answer { text, is_error: true, code: 1 }
        },
    }
}

/// Options count one after the other: a file given later replaces one given
/// before, and the first that asks for something else, or is wrong, decides.
pub proof fn law_options_count_in_order(
    arg: Seq<char>,
    file: Seq<char>,
    rest: Seq<Seq<char>>,
    purge_plan: bool,
    config_file: Option<Seq<char>>,
)
    ensures
        parsed(Seq::empty(), purge_plan, config_file) == (InvocationView::Run {
            purge_plan,
            config_file,
        }),
        parsed(seq!["--purge-plan"@] + rest, purge_plan, config_file) == parsed(
            rest,
            true,
            config_file,
        ),
        arg == "--config"@ || arg == "-c"@ ==> parsed(
            seq![arg, file] + rest,
            purge_plan,
            config_file,
        ) == parsed(rest, purge_plan, Some(file)),
        arg == "--config"@ || arg == "-c"@ ==> parsed(seq![arg], purge_plan, config_file)
            == InvocationView::MissingFile(arg),
        arg == "--version"@ || arg == "-V"@ ==> parsed(seq![arg] + rest, purge_plan, config_file)
            is Version,
        arg == "--help"@ || arg == "-h"@ ==> parsed(seq![arg] + rest, purge_plan, config_file)
            is Help,
        arg != "--purge-plan"@ && arg != "--config"@ && arg != "-c"@ && arg != "--version"@ && arg
            != "-V"@ && arg != "--help"@ && arg != "-h"@ ==> parsed(
            seq![arg] + rest,
            purge_plan,
            config_file,
        ) == InvocationView::UnknownOption(arg),
{
    reveal_strlit("--purge-plan");
    reveal_strlit("--config");
    reveal_strlit("-c");
    reveal_strlit("--version");
    reveal_strlit("-V");
    reveal_strlit("--help");
    reveal_strlit("-h");
    assert("--purge-plan"@.len() == 12 && "--config"@.len() == 8 && "--version"@.len() == 9);
    assert("--help"@.len() == 6 && "-c"@[1] == 'c' && "-V"@[1] == 'V' && "-h"@[1] == 'h');
    let plan = seq!["--purge-plan"@] + rest;
    assert(plan[0] == "--purge-plan"@ && plan.skip(1) =~= rest);
    let given = seq![arg, file] + rest;
    assert(given[0] == arg && given[1] == file && given.skip(2) =~= rest);
    assert((seq![arg] + rest)[0] == arg);
}

/// What is printed at once.
pub proof fn law_texts_are_the_usual_ones(file: String, purge_plan: bool)
    ensures
        refusal_text() == "Error: This tool requires root privileges.\n"@
            + "Please run with sudo."@,
        (Invocation::Run { purge_plan, config_file: Some(file) })@ == (InvocationView::Run {
            purge_plan,
            config_file: Some(file@),
        }),
        (Invocation::Run { purge_plan, config_file: None })@ == (InvocationView::Run {
            purge_plan,
            config_file: None,
        }),
        Invocation::Version@ is Version,
        Invocation::Help@ is Help,
        Invocation::MissingFile(file)@ == InvocationView::MissingFile(file@),
        Invocation::UnknownOption(file)@ == InvocationView::UnknownOption(file@),
{
}

} // verus!
