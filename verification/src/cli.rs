//! What the program does, decided from its command-line arguments.

use vstd::prelude::*;
use vstd::string::StringExecFns;
use crate::text::str_eq;

verus! {

/// What the program was asked to do.
pub enum Mode {
    /// Print the usage of the account with this API key.
    PrintUsage(String),
    /// `--api-key` came without a non-empty value.
    MissingApiKey,
    /// Write sample key images into this directory.
    DebugPng(String),
    /// Not started by the host application: print how to use the program.
    Help,
    /// Started by the host application: run as a plugin.
    Plugin,
}

/// The arguments as character sequences.
pub open spec fn arg_views(args: Seq<String>) -> Seq<Seq<char>> {
    args.map_values(|s: String| s@)
}

/// Index of the first argument equal to `word`.
pub open spec fn position(args: Seq<Seq<char>>, word: Seq<char>) -> Option<int>
    decreases args.len(),
{
    if args.len() == 0 {
        None
    } else if args[0] == word {
        Some(0)
    } else {
        match position(args.drop_first(), word) {
            Some(i) => Some(i + 1),
            None => None,
        }
    }
}

proof fn lemma_position(args: Seq<Seq<char>>, word: Seq<char>, k: int)
    requires
        0 <= k <= args.len(),
        forall|j: int| 0 <= j < k ==> #[trigger] args[j] != word,
    ensures
        k < args.len() && args[k] == word ==> position(args, word) == Some(k),
        k == args.len() ==> position(args, word) is None,
    decreases k,
{
    if k > 0 {
        assert forall|j: int| 0 <= j < k - 1 implies #[trigger] args.drop_first()[j] != word by {
            assert(args.drop_first()[j] == args[j + 1]);
        }
        lemma_position(args.drop_first(), word, k - 1);
    }
}

/// Index of the first argument equal to `word`.
fn find_arg(args: &Vec<String>, word: &str) -> (pos: Option<usize>)
    ensures
        match pos {
            Some(i) => position(arg_views(args@), word@) == Some(i as int),
            None => position(arg_views(args@), word@) is None,
        },
        pos matches Some(i) ==> i < args@.len(),
{
    let ghost a = arg_views(args@);
    let mut i: usize = 0;
    while i < args.len()
        invariant
            a == arg_views(args@),
            a.len() == args@.len(),
            i <= args.len(),
            forall|j: int| 0 <= j < i ==> #[trigger] a[j] != word@,
        decreases args.len() - i,
    {
        assert(a[i as int] == args@[i as int]@);
        if str_eq(args[i].as_str(), word) {
            proof {
                lemma_position(a, word@, i as int);
            }
            return Some(i);
        }
        i = i + 1;
    }
    proof {
        lemma_position(a, word@, i as int);
    }
    None
}

/// What the arguments ask for: with `--api-key`, print the usage for the
/// key that follows it (an error when none or an empty one does); else with
/// `--debug-png`, write sample images into the directory that follows it
/// (`.` when none does); else run as a plugin when `-port` is present, and
/// print how to use the program when it is not.
pub open spec fn mode_matches(args: Seq<Seq<char>>, mode: Mode) -> bool {
    match position(args, "--api-key"@) {
        Some(p) => if p + 1 < args.len() && args[p + 1].len() > 0 {
            mode matches Mode::PrintUsage(key) && key@ == args[p + 1]
        } else {
            mode is MissingApiKey
        },
        None => match position(args, "--debug-png"@) {
            Some(p) => mode matches Mode::DebugPng(dir) && dir@ == (if p + 1 < args.len() {
                args[p + 1]
            } else {
                "."@
            }),
            None => if position(args, "-port"@) is Some {
                mode is Plugin
            } else {
                mode is Help
            },
        },
    }
}

/// What the program was asked to do.
pub fn cli_mode(args: &Vec<String>) -> (mode: Mode)
    ensures
        mode_matches(arg_views(args@), mode),
{
    let ghost a = arg_views(args@);
    assert(a.len() == args@.len());
    let api_key = find_arg(args, "--api-key");
    match api_key {
        Some(p) => {
            assert(p < args.len());
            if p + 1 < args.len() && !args[p + 1].as_str().is_empty() {
                assert(a[p + 1] == args@[p + 1]@);
                Mode::PrintUsage(args[p + 1].clone())
            } else {
                proof {
                    if p + 1 < args.len() {
                        assert(a[p + 1] == args@[p + 1]@);
                    }
                }
                Mode::MissingApiKey
            }
        },
        None => match find_arg(args, "--debug-png") {
            Some(p) => {
                assert(p < args.len());
                if p + 1 < args.len() {
                    assert(a[p + 1] == args@[p + 1]@);
                    Mode::DebugPng(args[p + 1].clone())
                } else {
                    Mode::DebugPng(String::from_str("."))
                }
            },
            None => match find_arg(args, "-port") {
                Some(_) => Mode::Plugin,
                None => Mode::Help,
            },
        },
    }
}

} // verus!
