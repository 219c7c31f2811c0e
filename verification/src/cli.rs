//! The command-line tool's reading of its arguments.
use vstd::prelude::*;

use crate::text::{chars_eq_str, chars_of, has_prefix, string_from_chars, string_from_str};

verus! {

/// The operations of the command-line tool.
#[derive(Debug, Clone, Copy, PartialEq, Eq, Structural)]
pub enum CliOperation {
    Add,
    Train,
    Test,
    List,
    Remove,
    ShowConfig,
    Debug,
    Version,
    Help,
    Unknown,
}

pub open spec fn operation_of(s: Seq<char>) -> CliOperation {
    if s == "add"@ {
        CliOperation::Add
    } else if s == "train"@ {
        CliOperation::Train
    } else if s == "test"@ {
        CliOperation::Test
    } else if s == "list"@ {
        CliOperation::List
    } else if s == "remove"@ {
        CliOperation::Remove
    } else if s == "show-config"@ {
        CliOperation::ShowConfig
    } else if s == "debug"@ {
        CliOperation::Debug
    } else if s == "version"@ || s == "--version"@ || s == "-v"@ {
        CliOperation::Version
    } else if s == "help"@ || s == "--help"@ || s == "-h"@ {
        CliOperation::Help
    } else {
        CliOperation::Unknown
    }
}

/// The operation that the first argument names.
pub fn parse_operation(op: &str) -> (r: CliOperation)
    ensures
        r == operation_of(op@),
{
    let s = chars_of(op);
    let t = s.as_slice();
    if chars_eq_str(t, "add") {
        CliOperation::Add
    } else if chars_eq_str(t, "train") {
        CliOperation::Train
    } else if chars_eq_str(t, "test") {
        CliOperation::Test
    } else if chars_eq_str(t, "list") {
        CliOperation::List
    } else if chars_eq_str(t, "remove") {
        CliOperation::Remove
    } else if chars_eq_str(t, "show-config") {
        CliOperation::ShowConfig
    } else if chars_eq_str(t, "debug") {
        CliOperation::Debug
    } else if chars_eq_str(t, "version") || chars_eq_str(t, "--version") || chars_eq_str(t, "-v") {
        CliOperation::Version
    } else if chars_eq_str(t, "help") || chars_eq_str(t, "--help") || chars_eq_str(t, "-h") {
        CliOperation::Help
    } else {
        CliOperation::Unknown
    }
}

/// The options of `train`, read from argument `i` on: the user, the label
/// and whether a new embedding is added. `--label` takes the next argument
/// when there is one; `--new` asks for a new embedding; any other argument
/// not starting with `-` is the user (the last one wins).
pub open spec fn train_options_from(args: Seq<Seq<char>>, i: int, acc: (Seq<char>, Seq<char>, bool)) -> (Seq<char>, Seq<char>, bool)
    decreases args.len() - i,
{
    if i < 0 || i >= args.len() {
        acc
    } else if args[i] == "--label"@ && i + 1 < args.len() {
        train_options_from(args, i + 2, (acc.0, args[i + 1], acc.2))
    } else if args[i] == "--new"@ {
        train_options_from(args, i + 1, (acc.0, acc.1, true))
    } else if !has_prefix(args[i], seq!['-']) {
        train_options_from(args, i + 1, (args[i], acc.1, acc.2))
    } else {
        train_options_from(args, i + 1, acc)
    }
}

pub open spec fn train_options_spec(args: Seq<Seq<char>>) -> (Seq<char>, Seq<char>, bool) {
    train_options_from(args, 2, (Seq::empty(), Seq::empty(), false))
}

/// The user, label and new-embedding flag of a `train` command line (all
/// arguments, the program's name first).
pub fn train_options(args: &Vec<String>) -> (r: (String, String, bool))
    ensures
        (r.0@, r.1@, r.2) == train_options_spec(args.deep_view()),
{
    let ghost av = args.deep_view();
    let mut user = String::new();
    let mut label = String::new();
    let mut is_new = false;
    let mut i: usize = 2;
    proof {
        reveal_strlit("");
    }
    while i < args.len()
        invariant
            2 <= i,
            av == args.deep_view(),
            train_options_spec(av) == train_options_from(av, i as int, (user@, label@, is_new)),
        decreases args.len() - i,
    {
        let a = chars_of(args[i].as_str());
        if chars_eq_str(a.as_slice(), "--label") && i + 1 < args.len() {
            let l = chars_of(args[i + 1].as_str());
            label = string_from_chars(l.as_slice());
            i = i + 2;
        } else if chars_eq_str(a.as_slice(), "--new") {
            is_new = true;
            i = i + 1;
        } else if a.len() == 0 || a[0] != '-' {
            proof {
                if a@.len() > 0 {
                    assert(!has_prefix(a@, seq!['-'])) by {
                        assert(a@.subrange(0, 1)[0] == a@[0]);
                    }
                }
            }
            user = string_from_chars(a.as_slice());
            i = i + 1;
        } else {
            assert(a@.subrange(0, 1) =~= seq!['-']);
            i = i + 1;
        }
    }
    (user, label, is_new)
}

/// The value of the first `--label` with a value, from argument `i` on;
/// empty when there is none.
pub open spec fn label_option_from(args: Seq<Seq<char>>, i: int) -> Seq<char>
    decreases args.len() - i,
{
    if i < 0 || i >= args.len() {
        Seq::empty()
    } else if args[i] == "--label"@ && i + 1 < args.len() {
        args[i + 1]
    } else {
        label_option_from(args, i + 1)
    }
}

/// The label of a `remove` command line: the value of the first `--label`
/// after the user; empty when there is none.
pub fn remove_label_option(args: &Vec<String>) -> (r: String)
    ensures
        r@ == label_option_from(args.deep_view(), 3),
{
    let ghost av = args.deep_view();
    let mut i: usize = 3;
    proof {
        reveal_strlit("");
    }
    while i < args.len()
        invariant
            3 <= i,
            av == args.deep_view(),
            label_option_from(av, 3) == label_option_from(av, i as int),
        decreases args.len() - i,
    {
        let a = chars_of(args[i].as_str());
        if chars_eq_str(a.as_slice(), "--label") && i + 1 < args.len() {
            let l = chars_of(args[i + 1].as_str());
            return string_from_chars(l.as_slice());
        }
        i = i + 1;
    }
    String::new()
}

/// The log level that `debug on` and `debug off` ask for; `None` for any
/// other word.
pub fn debug_level_argument(arg: &str) -> (r: Option<&'static str>)
    ensures
        match r {
            Some(l) => (arg@ == "on"@ && l@ == "DEBUG"@) || (arg@ == "off"@ && l@ == "INFO"@),
            None => arg@ != "on"@ && arg@ != "off"@,
        },
{
    let a = chars_of(arg);
    if chars_eq_str(a.as_slice(), "on") {
        Some("DEBUG")
    } else if chars_eq_str(a.as_slice(), "off") {
        Some("INFO")
    } else {
        None
    }
}

/// Whether the answer to an overwrite question is yes.
pub fn is_yes_answer(answer: &str) -> (r: bool)
    ensures
        r == (answer@ == "y"@ || answer@ == "Y"@),
{
    let a = chars_of(answer);
    chars_eq_str(a.as_slice(), "y") || chars_eq_str(a.as_slice(), "Y")
}

/// The label used when the user gives none: `default` for refining, and
/// the given fallback (a time-stamped name) for a new embedding.
pub fn label_or_default(label: &str, fallback: &str) -> (r: String)
    ensures
        r@ == (if label@.len() > 0 {
            label@
        } else {
            fallback@
        }),
{
    if label.unicode_len() > 0 {
        string_from_str(label)
    } else {
        string_from_str(fallback)
    }
}

} // verus!
