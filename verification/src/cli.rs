//! Command-line arguments of the daemon.

use vstd::prelude::*;

use crate::text::{chars_of, same_chars, starts_with, string_from};

verus! {

/// What the daemon was asked to do.
#[derive(Debug, PartialEq, Eq)]
pub enum Cli {
    /// Run, loading configuration from the given file if one was named.
    Run { config: Option<String> },
    /// Print help.
    Help,
    /// Print the version.
    Version,
}

/// The mathematical content of a [`Cli`].
pub enum CliView {
    Run { config: Option<Seq<char>> },
    Help,
    Version,
}

impl View for Cli {
    type V = CliView;

    open spec fn view(&self) -> CliView {
        match self {
            Cli::Run { config } => CliView::Run {
                config: match config {
                    Some(c) => Some(c@),
                    None => None,
                },
            },
            Cli::Help => CliView::Help,
            Cli::Version => CliView::Version,
        }
    }
}

/// The arguments as character sequences.
pub open spec fn arg_views(args: Seq<String>) -> Seq<Seq<char>> {
    args.map_values(|a: String| a@)
}

/// The outcome of the arguments from index `i` on, when the configuration file
/// named so far is `config`. Help and version win over everything after them;
/// a later `--config` replaces an earlier one.
pub open spec fn cli_from(args: Seq<Seq<char>>, i: int, config: Option<Seq<char>>) -> Result<
    CliView,
    Seq<char>,
>
    decreases args.len() - i,
{
    if i >= args.len() || i < 0 {
        Ok(CliView::Run { config })
    } else {
        let a = args[i];
        if a == "-h"@ || a == "--help"@ {
            Ok(CliView::Help)
        } else if a == "-V"@ || a == "--version"@ {
            Ok(CliView::Version)
        } else if a == "--config"@ {
            if i + 1 < args.len() {
                cli_from(args, i + 2, Some(args[i + 1]))
            } else {
                Err("--config requires a path"@)
            }
        } else if a.len() >= 9 && a.take(9) == "--config="@ {
            if a.len() == 9 {
                Err("--config requires a path"@)
            } else {
                cli_from(args, i + 1, Some(a.skip(9)))
            }
        } else {
            Err("unrecognized argument: "@.add(a))
        }
    }
}

fn concat(prefix: &str, rest: &[char]) -> (r: String)
    ensures
        r@ == prefix@.add(rest@),
{
    let mut chars = chars_of(prefix);
    let ghost head = chars@;
    let mut i: usize = 0;
    while i < rest.len()
        invariant
            i <= rest@.len(),
            chars@ == head.add(rest@.take(i as int)),
        decreases rest.len() - i,
    {
        chars.push(rest[i]);
        i = i + 1;
        assert(chars@ =~= head.add(rest@.take(i as int)));
    }
    assert(rest@.take(i as int) =~= rest@);
    string_from(&chars)
}

impl Cli {
    /// Interprets the command-line arguments that follow the program name.
    pub fn parse(args: Vec<String>) -> (r: Result<Cli, String>)
        ensures
            match r {
                Ok(c) => cli_from(arg_views(args@), 0, None) == Ok::<CliView, Seq<char>>(c@),
                Err(m) => cli_from(arg_views(args@), 0, None) == Err::<CliView, Seq<char>>(m@),
            },
    {
        let ghost av = arg_views(args@);
        let help_short = chars_of("-h");
        let help_long = chars_of("--help");
        let version_short = chars_of("-V");
        let version_long = chars_of("--version");
        let config_flag = chars_of("--config");
        let config_eq = chars_of("--config=");
        proof {
            reveal_strlit("--config=");
        }
        let mut config: Option<String> = None;
        let mut i: usize = 0;
        while i < args.len()
            invariant
                av == arg_views(args@),
                help_short@ == "-h"@,
                help_long@ == "--help"@,
                version_short@ == "-V"@,
                version_long@ == "--version"@,
                config_flag@ == "--config"@,
                config_eq@ == "--config="@,
                config_eq@.len() == 9,
                i <= args@.len(),
                cli_from(av, 0, None) == cli_from(
                    av,
                    i as int,
                    match config {
                        Some(c) => Some(c@),
                        None => None,
                    },
                ),
            decreases args.len() - i,
        {
            let a = chars_of(args[i].as_str());
            assert(av[i as int] == a@);
            if same_chars(&a, &help_short) || same_chars(&a, &help_long) {
                return Ok(Cli::Help);
            }
            if same_chars(&a, &version_short) || same_chars(&a, &version_long) {
                return Ok(Cli::Version);
            }
            if same_chars(&a, &config_flag) {
                if i + 1 < args.len() {
                    assert(av[i + 1] == args@[i + 1]@);
                    config = Some(args[i + 1].clone());
                    i = i + 2;
                } else {
                    return Err("--config requires a path".to_owned());
                }
            } else if starts_with(&a, &config_eq) {
                if a.len() == 9 {
                    return Err("--config requires a path".to_owned());
                }
                let value = crate::text::copy_range(&a, 9, a.len());
                assert(value@ =~= a@.skip(9));
                config = Some(string_from(&value));
                i = i + 1;
            } else {
                return Err(concat("unrecognized argument: ", &a));
            }
        }
        Ok(Cli::Run { config })
    }
}

/// `--help` and `--version` are answered whatever follows them.
pub proof fn help_and_version_short_circuit(args: Seq<Seq<char>>, i: int, config: Option<Seq<char>>)
    requires
        0 <= i < args.len(),
    ensures
        (args[i] == "--help"@ || args[i] == "-h"@) ==> cli_from(args, i, config) == Ok::<
            CliView,
            Seq<char>,
        >(CliView::Help),
        (args[i] == "--version"@ || args[i] == "-V"@) && !(args[i] == "--help"@ || args[i]
            == "-h"@) ==> cli_from(args, i, config) == Ok::<CliView, Seq<char>>(CliView::Version),
{
}

/// Without arguments the daemon runs with its default configuration.
pub proof fn no_arguments_run_with_the_default_configuration()
    ensures
        cli_from(seq![], 0, None) == Ok::<CliView, Seq<char>>(CliView::Run { config: None }),
{
}

proof fn lemma_flag_literals()
    ensures
        "--config"@.len() == 8,
        "--config="@.len() == 9,
        "--config="@.take(8) == "--config"@,
        "--config"@[2] == 'c',
        "--config="@[2] == 'c',
        "-h"@.len() == 2,
        "-V"@.len() == 2,
        "--help"@.len() == 6,
        "--help"@[2] == 'h',
        "--version"@.len() == 9,
        "--version"@[2] == 'v',
{
    reveal_strlit("--config");
    reveal_strlit("--config=");
    reveal_strlit("-h");
    reveal_strlit("--help");
    reveal_strlit("-V");
    reveal_strlit("--version");
    assert("--config="@.take(8) =~= "--config"@);
}

/// `--config PATH` names the configuration file; a later `--config`
/// replaces an earlier one; `--config` with nothing after it is an error.
pub proof fn config_flag_names_the_file(p: Seq<char>, q: Seq<char>)
    ensures
        cli_from(seq!["--config"@, p], 0, None) == Ok::<CliView, Seq<char>>(
            CliView::Run { config: Some(p) },
        ),
        cli_from(seq!["--config"@, p, "--config"@, q], 0, None) == Ok::<CliView, Seq<char>>(
            CliView::Run { config: Some(q) },
        ),
        cli_from(seq!["--config"@], 0, None) == Err::<CliView, Seq<char>>(
            "--config requires a path"@,
        ),
{
    lemma_flag_literals();
    let c = "--config"@;
    assert(c != "-h"@ && c != "-V"@ && c != "--help"@);
    assert(c != "--version"@);
    let one = seq![c, p];
    assert(one[0] == c && one[1] == p && one.len() == 2);
    assert(cli_from(one, 2, Some(p)) == Ok::<CliView, Seq<char>>(CliView::Run { config: Some(p) }));
    let two = seq![c, p, c, q];
    assert(two[0] == c && two[1] == p && two[2] == c && two[3] == q && two.len() == 4);
    assert(cli_from(two, 4, Some(q)) == Ok::<CliView, Seq<char>>(CliView::Run { config: Some(q) }));
    assert(cli_from(two, 2, Some(p)) == cli_from(two, 4, Some(q)));
    let lone = seq![c];
    assert(lone[0] == c && lone.len() == 1);
}

/// `--config=PATH` names the configuration file `PATH`, which must not be
/// empty.
pub proof fn config_assignment_names_the_file(p: Seq<char>)
    ensures
        p.len() > 0 ==> cli_from(seq!["--config="@ + p], 0, None) == Ok::<CliView, Seq<char>>(
            CliView::Run { config: Some(p) },
        ),
        cli_from(seq!["--config="@], 0, None) == Err::<CliView, Seq<char>>(
            "--config requires a path"@,
        ),
{
    lemma_flag_literals();
    let e = "--config="@;
    let a = e + p;
    assert(a.take(9) =~= e);
    assert(a.skip(9) =~= p);
    assert(a[2] == 'c');
    assert(a != "-h"@ && a != "-V"@ && a != "--config"@ && a != "--help"@);
    assert(a != "--version"@);
    assert(e != "-h"@ && e != "-V"@ && e != "--config"@ && e != "--help"@);
    assert(e != "--version"@);
    assert(e.take(9) =~= e);
    let one = seq![a];
    assert(one[0] == a && one.len() == 1);
    assert(a.len() == 9 + p.len());
    assert(cli_from(one, 1, Some(p)) == Ok::<CliView, Seq<char>>(CliView::Run { config: Some(p) }));
    assert(a.len() >= 9 && a.take(9) == "--config="@);
    let bare = seq![e];
    assert(bare[0] == e && bare.len() == 1);
}

/// Any other argument is refused, and the message names it.
pub proof fn unknown_arguments_are_refused(a: Seq<char>)
    requires
        a != "-h"@,
        a != "--help"@,
        a != "-V"@,
        a != "--version"@,
        a != "--config"@,
        !(a.len() >= 9 && a.take(9) == "--config="@),
    ensures
        cli_from(seq![a], 0, None) == Err::<CliView, Seq<char>>("unrecognized argument: "@ + a),
{
}

} // verus!
