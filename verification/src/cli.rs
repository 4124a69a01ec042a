//! Command-line argument parsing.
use vstd::prelude::*;
use vstd::string::*;

verus! {

/// The version of this package.
pub const VERSION: &'static str = "0.1.0";

broadcast use vstd::string::group_string_axioms;

/// Command-line arguments.
#[derive(Debug, Clone)]
pub struct Args {
    pub help: bool,
    pub version: bool,
    pub config: Option<String>,
}

impl Default for Args {
    fn default() -> (r: Args)
        ensures
            !r.help,
            !r.version,
            r.config is None,
    {
        Args { help: false, version: false, config: None }
    }
}

/// The arguments read from position `i` on, given what was read before it:
/// the help flag, the version flag and the configuration path, or the
/// message of the first error.
pub open spec fn parse_args_from(
    args: Seq<Seq<char>>,
    i: int,
    help: bool,
    version: bool,
    config: Option<Seq<char>>,
) -> std::result::Result<(bool, bool, Option<Seq<char>>), Seq<char>>
    decreases args.len() - i,
{
    if i < 0 || i >= args.len() {
        Ok((help, version, config))
    } else {
        let a = args[i];
        if a == "-h"@ || a == "--help"@ {
            parse_args_from(args, i + 1, true, version, config)
        } else if a == "-v"@ || a == "--version"@ {
            parse_args_from(args, i + 1, help, true, config)
        } else if a == "-c"@ || a == "--config"@ {
            if i + 1 >= args.len() {
                Err("--config requires a value"@)
            } else {
                parse_args_from(args, i + 2, help, version, Some(args[i + 1]))
            }
        } else {
            Err("Unknown argument: "@ + a)
        }
    }
}

/// The views of a list of strings.
pub open spec fn views(v: Seq<String>) -> Seq<Seq<char>> {
    v.map_values(|s: String| s@)
}

fn is_word(s: &String, word: &str) -> (r: bool)
    ensures
        r == (s@ == word@),
{
    *s == String::from_str(word)
}

/// Parse command-line arguments; the first one, the program's name, is skipped.
pub fn parse_args(args: &[String]) -> (r: std::result::Result<Args, String>)
    ensures
        match parse_args_from(views(args@), 1, false, false, None) {
            Ok(m) => r matches Ok(a) && a.help == m.0 && a.version == m.1 && a.config.deep_view()
                == m.2,
            Err(e) => r matches Err(msg) && msg@ == e,
        },
{
    let ghost av = views(args@);
    let mut parsed = Args::default();
    let mut i: usize = 1;
    while i < args.len()
        invariant
            av == views(args@),
            1 <= i,
            parse_args_from(av, i as int, parsed.help, parsed.version, parsed.config.deep_view())
                == parse_args_from(av, 1, false, false, None),
        decreases args.len() - i,
    {
        let a = &args[i];
        assert(av[i as int] == a@);
        if is_word(a, "-h") || is_word(a, "--help") {
            parsed.help = true;
        } else if is_word(a, "-v") || is_word(a, "--version") {
            parsed.version = true;
        } else if is_word(a, "-c") || is_word(a, "--config") {
            i = i + 1;
            if i >= args.len() {
                return Err(String::from_str("--config requires a value"));
            }
            assert(av[i as int] == args@[i as int]@);
            parsed.config = Some(args[i].clone());
        } else {
            return Err(String::from_str("Unknown argument: ").concat(a.as_str()));
        }
        i = i + 1;
    }
    Ok(parsed)
}

} // verus!
