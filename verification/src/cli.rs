//! The command line: `reel2mp3 [--cookies BROWSER] [--out DIR] [URL…]`.

use vstd::prelude::*;
use crate::app::{cookie_index, cookie_pos};
use crate::text::{copy_text, same_text};

verus! {

/// What the command line asks for.
pub enum Cli {
    /// `-h` / `--help`: print the usage and leave.
    Help,
    /// Run the dashboard: the output folder if one was named, the cookie
    /// choice, and the links to stage at start.
    Run { out: Option<String>, cookies: usize, urls: Vec<String> },
    /// `--cookies` named a browser that is not one of the choices.
    UnknownBrowser(String),
}

pub enum CliView {
    Help,
    Run { out: Option<Seq<char>>, cookies: usize, urls: Seq<Seq<char>> },
    UnknownBrowser(Seq<char>),
}

impl View for Cli {
    type V = CliView;

    open spec fn view(&self) -> CliView {
        match self {
            Cli::Help => CliView::Help,
            Cli::Run { out, cookies, urls } => CliView::Run {
                out: match out {
                    Some(o) => Some(o@),
                    None => None,
                },
                cookies: *cookies,
                urls: urls@.map_values(|u: String| u@),
            },
            Cli::UnknownBrowser(n) => CliView::UnknownBrowser(n@),
        }
    }
}

/// The argument after `i`, or empty when there is none.
pub open spec fn value_after(args: Seq<Seq<char>>, i: int) -> Seq<char> {
    if i + 1 < args.len() {
        args[i + 1]
    } else {
        seq![]
    }
}

/// Past an option and its value.
pub open spec fn past_value(args: Seq<Seq<char>>, i: int) -> int {
    if i + 2 <= args.len() {
        i + 2
    } else {
        args.len() as int
    }
}

/// Reading the arguments from `i` on, with what was read before: an option
/// takes the argument after it; help stops the reading; anything else is a link.
pub open spec fn read_args(
    args: Seq<Seq<char>>,
    i: int,
    out: Option<Seq<char>>,
    cookies: usize,
    urls: Seq<Seq<char>>,
) -> CliView
    decreases args.len() - i,
{
    if i < 0 || i >= args.len() {
        CliView::Run { out, cookies, urls }
    } else {
        let a = args[i];
        if a == "-c"@ || a == "--cookies"@ {
            match cookie_pos(value_after(args, i)) {
                Some(k) => read_args(args, past_value(args, i), out, k, urls),
                None => CliView::UnknownBrowser(value_after(args, i)),
            }
        } else if a == "-o"@ || a == "--out"@ {
            read_args(args, past_value(args, i), Some(value_after(args, i)), cookies, urls)
        } else if a == "-h"@ || a == "--help"@ {
            CliView::Help
        } else {
            read_args(args, i + 1, out, cookies, urls.push(a))
        }
    }
}

/// Reads the command line (without the program's name).
pub fn parse_args(args: &Vec<String>) -> (r: Cli)
    ensures
        r@ == read_args(args@.map_values(|a: String| a@), 0, None, 0, seq![]),
{
    let ghost av = args@.map_values(|a: String| a@);
    let mut out: Option<String> = None;
    let mut cookies: usize = 0;
    let mut urls: Vec<String> = Vec::new();
    let mut i: usize = 0;
    assert(urls@.map_values(|u: String| u@) =~= Seq::<Seq<char>>::empty());
    while i < args.len()
        invariant
            av == args@.map_values(|a: String| a@),
            i <= args@.len(),
            read_args(av, 0, None, 0, seq![]) == read_args(
                av,
                i as int,
                match out {
                    Some(o) => Some(o@),
                    None => None,
                },
                cookies,
                urls@.map_values(|u: String| u@),
            ),
        decreases args@.len() - i,
    {
        let a = args[i].as_str();
        assert(av[i as int] == a@);
        let value = if i + 1 < args.len() {
            assert(av[i + 1] == args@[i + 1]@);
            args[i + 1].as_str()
        } else {
            ""
        };
        proof {
            if i + 1 >= args.len() {
                reveal_strlit("");
            }
        }
        assert(value@ =~= value_after(av, i as int));
        if same_text(a, "-c") || same_text(a, "--cookies") {
            match cookie_index(value) {
                Some(k) => {
                    cookies = k;
                },
                None => {
                    return Cli::UnknownBrowser(copy_text(value));
                },
            }
            i = if args.len() - i >= 2 {
                i + 2
            } else {
                args.len()
            };
        } else if same_text(a, "-o") || same_text(a, "--out") {
            out = Some(copy_text(value));
            i = if args.len() - i >= 2 {
                i + 2
            } else {
                args.len()
            };
        } else if same_text(a, "-h") || same_text(a, "--help") {
            return Cli::Help;
        } else {
            let ghost u0 = urls@.map_values(|u: String| u@);
            urls.push(copy_text(a));
            assert(urls@.map_values(|u: String| u@) =~= u0.push(a@));
            i += 1;
        }
    }
    Cli::Run { out, cookies, urls }
}

} // verus!
