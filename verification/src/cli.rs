//! The command line.
use vstd::prelude::*;
use vstd::utf8::{encode_utf8, encode_utf8_decode_utf8, is_ascii_chars_encode_utf8};

use crate::bytes::{append, same};

verus! {

/// What `--help` prints.
pub const HELP: &'static str = "Usage: ubgp [OPTIONS]

  -c, --config PATH   Configuration file (default: /etc/ubgp.toml)
  -d, --daemon        Detach into the background; log to syslog
      --debug        Enable verbose diagnostic logs (overrides RUST_LOG)
      --check-config Validate configuration and exit without starting
  -h, --help         Print help
  -V, --version      Print version

--config=PATH is also accepted. Foreground operation is the default.
SIGHUP reloads configuration; SIGTERM/SIGINT stops the daemon.";

/// What to do. A path need not be text.
#[derive(Debug, PartialEq)]
pub enum Command {
    Help,
    Version,
    Run { path: Vec<u8>, daemon: bool, debug: bool, check: bool },
}

/// What a [`Command`] says.
#[verifier::ext_equal]
pub enum Order {
    Help,
    Version,
    Run { path: Seq<u8>, daemon: bool, debug: bool, check: bool },
}

impl View for Command {
    type V = Order;

    open spec fn view(&self) -> Order {
        match *self {
            Command::Help => Order::Help,
            Command::Version => Order::Version,
            Command::Run { path, daemon, debug, check } => Order::Run {
                path: path@,
                daemon,
                debug,
                check,
            },
        }
    }
}

/// Why arguments are refused.
#[derive(Debug, PartialEq)]
pub enum CliError {
    /// `--config` without a path.
    MissingPath,
    /// The argument at this place is none.
    Unknown(usize),
}

/// An argument as it is spelled.
pub open spec fn spelled(s: Seq<char>) -> Seq<u8> {
    encode_utf8(s)
}

/// A value that can stand after `--config`: something, and not another option.
pub open spec fn is_path(v: Seq<u8>) -> bool {
    v.len() > 0 && v[0] != 45
}

/// What arguments mean from a place on, where the ones before it gave `path` and
/// the three switches.
pub open spec fn meaning(
    args: Seq<Vec<u8>>,
    i: int,
    path: Seq<u8>,
    daemon: bool,
    debug: bool,
    check: bool,
) -> Result<Order, CliError>
    decreases args.len() - i,
{
    if i < 0 || i >= args.len() {
        Ok(Order::Run { path, daemon, debug, check })
    } else {
        let a = args[i]@;
        let assigned = spelled("--config="@);
        if a == spelled("--help"@) || a == spelled("-h"@) {
            Ok(Order::Help)
        } else if a == spelled("--version"@) || a == spelled("-V"@) {
            Ok(Order::Version)
        } else if a == spelled("--daemon"@) || a == spelled("-d"@) {
            meaning(args, i + 1, path, true, debug, check)
        } else if a == spelled("--debug"@) {
            meaning(args, i + 1, path, daemon, true, check)
        } else if a == spelled("--check-config"@) {
            meaning(args, i + 1, path, daemon, debug, true)
        } else if a == spelled("--config"@) || a == spelled("-c"@) {
            if i + 1 < args.len() && is_path(args[i + 1]@) {
                meaning(args, i + 2, args[i + 1]@, daemon, debug, check)
            } else {
                Err(CliError::MissingPath)
            }
        } else if a.len() >= assigned.len() && a.take(assigned.len() as int) == assigned {
            if a.len() > assigned.len() {
                meaning(args, i + 1, a.skip(assigned.len() as int), daemon, debug, check)
            } else {
                Err(CliError::MissingPath)
            }
        } else {
            Err(CliError::Unknown(i as usize))
        }
    }
}

/// What arguments mean.
pub open spec fn parsed(args: Seq<Vec<u8>>) -> Result<Order, CliError> {
    meaning(args, 0, spelled("/etc/ubgp.toml"@), false, false, false)
}

fn is(arg: &Vec<u8>, name: &'static str) -> (r: bool)
    ensures
        r == (arg@ == spelled(name@)),
{
    same(arg.as_slice(), name.as_bytes())
}

fn bytes_of(b: &[u8]) -> (r: Vec<u8>)
    ensures
        r@ == b@,
{
    let mut out: Vec<u8> = Vec::new();
    append(&mut out, b);
    assert(out@ =~= b@);
    out
}

/// Parse arguments after the executable name, preserving config paths that are not
/// text. Reject unknown options and missing values; help and version return
/// immediately.
pub fn parse(args: &Vec<Vec<u8>>) -> (r: Result<Command, CliError>)
    ensures
        match r {
            Ok(c) => parsed(args@) == Ok::<Order, CliError>(c@),
            Err(e) => parsed(args@) == Err::<Order, CliError>(e),
        },
{
    let mut path = bytes_of("/etc/ubgp.toml".as_bytes());
    let mut daemon = false;
    let mut debug = false;
    let mut check = false;
    let mut i: usize = 0;
    while i < args.len()
        invariant
            i <= args@.len(),
            parsed(args@) == meaning(args@, i as int, path@, daemon, debug, check),
        decreases args@.len() - i,
    {
        let arg = &args[i];
        if is(arg, "--help") || is(arg, "-h") {
            return Ok(Command::Help);
        }
        if is(arg, "--version") || is(arg, "-V") {
            return Ok(Command::Version);
        }
        if is(arg, "--daemon") || is(arg, "-d") {
            daemon = true;
        } else if is(arg, "--debug") {
            debug = true;
        } else if is(arg, "--check-config") {
            check = true;
        } else if is(arg, "--config") || is(arg, "-c") {
            if i + 1 >= args.len() {
                return Err(CliError::MissingPath);
            }
            i += 1;
            let value = &args[i];
            if value.len() == 0 || value[0] == 45 {
                return Err(CliError::MissingPath);
            }
            path = bytes_of(value.as_slice());
        } else {
            let assigned = "--config=".as_bytes();
            let n: usize = assigned.len();
            if arg.len() < n || !same(&arg.as_slice()[0..n], assigned) {
                proof {
                    if arg@.len() >= n {
                        assert(arg@.subrange(0, n as int) =~= arg@.take(n as int));
                    }
                }
                return Err(CliError::Unknown(i));
            }
            assert(arg@.subrange(0, n as int) =~= arg@.take(n as int));
            if arg.len() == n {
                return Err(CliError::MissingPath);
            }
            path = bytes_of(&arg.as_slice()[n..arg.len()]);
            assert(path@ =~= arg@.skip(n as int));
        }
        i += 1;
    }
    Ok(Command::Run { path, daemon, debug, check })
}

/// Help is given wherever it is asked for, unless something before it is wrong or
/// asks for something else.
pub proof fn law_help_wins(args: Seq<Vec<u8>>, rest: Seq<Vec<u8>>)
    requires
        parsed(args) matches Ok(Order::Run { .. }),
        rest.len() > 0,
        rest[0]@ == spelled("--help"@),
    ensures
        parsed(args + rest) == Ok::<Order, CliError>(Order::Help),
{
    lemma_help_wins(args, rest, 0, spelled("/etc/ubgp.toml"@), false, false, false);
}

proof fn lemma_help_wins(
    args: Seq<Vec<u8>>,
    rest: Seq<Vec<u8>>,
    i: int,
    path: Seq<u8>,
    daemon: bool,
    debug: bool,
    check: bool,
)
    requires
        0 <= i <= args.len(),
        meaning(args, i, path, daemon, debug, check) matches Ok(Order::Run { .. }),
        rest.len() > 0,
        rest[0]@ == spelled("--help"@),
    ensures
        meaning(args + rest, i, path, daemon, debug, check) == Ok::<Order, CliError>(Order::Help),
    decreases args.len() - i,
{
    let all = args + rest;
    if i == args.len() {
        assert(all[i] == rest[0]);
    } else {
        let a = args[i]@;
        assert(all[i] == args[i]);
        if a == spelled("--daemon"@) || a == spelled("-d"@) {
            lemma_help_wins(args, rest, i + 1, path, true, debug, check);
        } else if a == spelled("--debug"@) {
            lemma_help_wins(args, rest, i + 1, path, daemon, true, check);
        } else if a == spelled("--check-config"@) {
            lemma_help_wins(args, rest, i + 1, path, daemon, debug, true);
        } else if a == spelled("--config"@) || a == spelled("-c"@) {
            assert(all[i + 1] == args[i + 1]);
            lemma_help_wins(args, rest, i + 2, args[i + 1]@, daemon, debug, check);
        } else {
            let n = spelled("--config="@).len() as int;
            lemma_help_wins(args, rest, i + 1, a.skip(n), daemon, debug, check);
        }
    }
}

/// Different texts are spelled differently.
proof fn lemma_spelled(a: Seq<char>, b: Seq<char>)
    requires
        spelled(a) == spelled(b),
    ensures
        a == b,
{
    encode_utf8_decode_utf8(a);
    encode_utf8_decode_utf8(b);
}

/// The options are told apart by their length and their letters.
proof fn lemma_options_differ()
    ensures
        forall|s: Seq<char>, t: Seq<char>| #![trigger spelled(s), spelled(t)]
            spelled(s) == spelled(t) ==> s == t,
        "--help"@.len() == 6,
        "-h"@.len() == 2 && "-h"@[1] == 'h',
        "--version"@.len() == 9,
        "-V"@.len() == 2 && "-V"@[1] == 'V',
        "--daemon"@.len() == 8 && "--daemon"@[2] == 'd',
        "-d"@.len() == 2 && "-d"@[1] == 'd',
        "--debug"@.len() == 7,
        "--check-config"@.len() == 14,
        "--config"@.len() == 8 && "--config"@[2] == 'c',
        "-c"@.len() == 2 && "-c"@[1] == 'c',
        "--config="@.len() == 9,
{
    assert forall|s: Seq<char>, t: Seq<char>| #![trigger spelled(s), spelled(t)]
        spelled(s) == spelled(t) implies s == t by {
        lemma_spelled(s, t);
    }
    reveal_strlit("--help");
    reveal_strlit("-h");
    reveal_strlit("--version");
    reveal_strlit("-V");
    reveal_strlit("--daemon");
    reveal_strlit("-d");
    reveal_strlit("--debug");
    reveal_strlit("--check-config");
    reveal_strlit("--config");
    reveal_strlit("-c");
    reveal_strlit("--config=");
}

/// Arguments that are in order are followed by what comes next.
proof fn lemma_then(
    args: Seq<Vec<u8>>,
    rest: Seq<Vec<u8>>,
    i: int,
    path: Seq<u8>,
    daemon: bool,
    debug: bool,
    check: bool,
)
    requires
        0 <= i <= args.len(),
        meaning(args, i, path, daemon, debug, check) matches Ok(Order::Run { .. }),
    ensures
        meaning(args, i, path, daemon, debug, check) matches Ok(
            Order::Run { path: p, daemon: d, debug: g, check: c },
        ) && meaning(args + rest, i, path, daemon, debug, check) == meaning(
            args + rest,
            args.len() as int,
            p,
            d,
            g,
            c,
        ),
    decreases args.len() - i,
{
    let all = args + rest;
    if i < args.len() {
        let a = args[i]@;
        assert(all[i] == args[i]);
        if a == spelled("--help"@) || a == spelled("-h"@) || a == spelled("--version"@) || a
            == spelled("-V"@) {
        } else if a == spelled("--daemon"@) || a == spelled("-d"@) {
            lemma_then(args, rest, i + 1, path, true, debug, check);
        } else if a == spelled("--debug"@) {
            lemma_then(args, rest, i + 1, path, daemon, true, check);
        } else if a == spelled("--check-config"@) {
            lemma_then(args, rest, i + 1, path, daemon, debug, true);
        } else if a == spelled("--config"@) || a == spelled("-c"@) {
            assert(all[i + 1] == args[i + 1]);
            lemma_then(args, rest, i + 2, args[i + 1]@, daemon, debug, check);
        } else {
            let n = spelled("--config="@).len() as int;
            lemma_then(args, rest, i + 1, a.skip(n), daemon, debug, check);
        }
    }
}

/// Each option does one thing and leaves the rest as it was: the short and the long
/// forms of detaching, the debug and the check option each set their own flag, and a
/// path replaces the one before it. Without options the configuration is the one under
/// `/etc`, in the foreground.
pub proof fn law_options_do_one_thing_each(args: Seq<Vec<u8>>, option: Vec<u8>, value: Vec<u8>)
    requires
        parsed(args) matches Ok(Order::Run { .. }),
    ensures
        parsed(Seq::empty()) == Ok::<Order, CliError>(
            Order::Run {
                path: spelled("/etc/ubgp.toml"@),
                daemon: false,
                debug: false,
                check: false,
            },
        ),
        parsed(args) matches Ok(Order::Run { path, daemon, debug, check }) && {
            &&& option@ == spelled("--daemon"@) || option@ == spelled("-d"@) ==> parsed(
                args + seq![option],
            ) == Ok::<Order, CliError>(Order::Run { path, daemon: true, debug, check })
            &&& option@ == spelled("--debug"@) ==> parsed(args + seq![option]) == Ok::<
                Order,
                CliError,
            >(Order::Run { path, daemon, debug: true, check })
            &&& option@ == spelled("--check-config"@) ==> parsed(args + seq![option]) == Ok::<
                Order,
                CliError,
            >(Order::Run { path, daemon, debug, check: true })
            &&& option@ == spelled("--config"@) || option@ == spelled("-c"@) ==> parsed(
                args + seq![option, value],
            ) == if value@.len() > 0 && value@[0] != 45 {
                Ok::<Order, CliError>(Order::Run { path: value@, daemon, debug, check })
            } else {
                Err(CliError::MissingPath)
            }
            &&& option@ == spelled("--config"@) || option@ == spelled("-c"@) ==> parsed(
                args + seq![option],
            ) == Err::<Order, CliError>(CliError::MissingPath)
            &&& option@ == spelled("--help"@) || option@ == spelled("-h"@) ==> parsed(
                args + seq![option],
            ) == Ok::<Order, CliError>(Order::Help)
            &&& option@ == spelled("--version"@) || option@ == spelled("-V"@) ==> parsed(
                args + seq![option],
            ) == Ok::<Order, CliError>(Order::Version)
        },
{
    lemma_options_differ();
    let start = spelled("/etc/ubgp.toml"@);
    let one = args + seq![option];
    let two = args + seq![option, value];
    lemma_then(args, seq![option], 0, start, false, false, false);
    lemma_then(args, seq![option, value], 0, start, false, false, false);
    let n = args.len() as int;
    assert(one[n] == option);
    assert(two[n] == option);
    assert(two[n + 1] == value);
    reveal_with_fuel(meaning, 3);
}

/// Anything else is refused by its place, after whatever options are in order.
pub proof fn law_unknown_argument_is_refused(args: Seq<Vec<u8>>, option: Vec<u8>)
    requires
        parsed(args) matches Ok(Order::Run { .. }),
        args.len() < usize::MAX,
        option@.len() == 0 || option@[0] != 45,
    ensures
        parsed(args + seq![option]) == Err::<Order, CliError>(
            CliError::Unknown(args.len() as usize),
        ),
{
    lemma_then(
        args,
        seq![option],
        0,
        spelled("/etc/ubgp.toml"@),
        false,
        false,
        false,
    );
    lemma_starts_with_dash("--help"@);
    lemma_starts_with_dash("-h"@);
    lemma_starts_with_dash("--version"@);
    lemma_starts_with_dash("-V"@);
    lemma_starts_with_dash("--daemon"@);
    lemma_starts_with_dash("-d"@);
    lemma_starts_with_dash("--debug"@);
    lemma_starts_with_dash("--check-config"@);
    lemma_starts_with_dash("--config"@);
    lemma_starts_with_dash("-c"@);
    lemma_starts_with_dash("--config="@);
    reveal_strlit("--help");
    reveal_strlit("-h");
    reveal_strlit("--version");
    reveal_strlit("-V");
    reveal_strlit("--daemon");
    reveal_strlit("-d");
    reveal_strlit("--debug");
    reveal_strlit("--check-config");
    reveal_strlit("--config");
    reveal_strlit("-c");
    reveal_strlit("--config=");
    let all = args + seq![option];
    assert(all[args.len() as int] == option);
    let assigned = spelled("--config="@);
    if option@.len() >= assigned.len() && option@.take(assigned.len() as int) == assigned {
        assert(option@[0] == assigned[0]);
    }
}

/// What starts with a dash is spelled with one at its start.
proof fn lemma_starts_with_dash(s: Seq<char>)
    ensures
        s.len() > 0 && s[0] == '-' ==> spelled(s).len() > 0 && spelled(s)[0] == 45,
{
    if s.len() > 0 && s[0] == '-' {
        assert(45u32 & 0x7f == 45) by (bit_vector);
        assert(s[0] as u32 == 45u32);
    }
}

/// An option that is assigned a path gives it that path, whatever the path starts with,
/// and is refused where there is none.
pub proof fn law_path_is_assigned(args: Seq<Vec<u8>>, option: Vec<u8>, value: Seq<u8>)
    requires
        parsed(args) matches Ok(Order::Run { .. }),
        option@ == spelled("--config="@) + value,
    ensures
        parsed(args) matches Ok(Order::Run { path, daemon, debug, check }) && parsed(
            args + seq![option],
        ) == if value.len() > 0 {
            Ok::<Order, CliError>(Order::Run { path: value, daemon, debug, check })
        } else {
            Err(CliError::MissingPath)
        },
{
    let start = spelled("/etc/ubgp.toml"@);
    lemma_then(args, seq![option], 0, start, false, false, false);
    let all = args + seq![option];
    assert(all[args.len() as int] == option);
    let assigned = spelled("--config="@);
    assert(option@.take(assigned.len() as int) =~= assigned);
    assert(option@.skip(assigned.len() as int) =~= value);
    lemma_options_differ();
    reveal_strlit("--help");
    reveal_strlit("-h");
    reveal_strlit("--version");
    reveal_strlit("-V");
    reveal_strlit("--daemon");
    reveal_strlit("-d");
    reveal_strlit("--debug");
    reveal_strlit("--check-config");
    reveal_strlit("--config");
    reveal_strlit("-c");
    reveal_strlit("--config=");
    is_ascii_chars_encode_utf8("--help"@);
    is_ascii_chars_encode_utf8("-h"@);
    is_ascii_chars_encode_utf8("--version"@);
    is_ascii_chars_encode_utf8("-V"@);
    is_ascii_chars_encode_utf8("--daemon"@);
    is_ascii_chars_encode_utf8("-d"@);
    is_ascii_chars_encode_utf8("--debug"@);
    is_ascii_chars_encode_utf8("--check-config"@);
    is_ascii_chars_encode_utf8("--config"@);
    is_ascii_chars_encode_utf8("-c"@);
    is_ascii_chars_encode_utf8("--config="@);
    assert("--config="@[3] == 'o' && "--check-config"@[3] == 'h' && "--version"@[3] == 'e');
    assert(option@[3] == assigned[3]);
    assert(assigned[3] == 'o' as u8);
    assert(spelled("--check-config"@)[3] == 'h' as u8);
    assert(spelled("--version"@)[3] == 'e' as u8);
    reveal_with_fuel(meaning, 3);
}

/// What the command line means is what is done.
pub proof fn law_command_line_is_obeyed(args: &Vec<Vec<u8>>, r: Result<Command, CliError>)
    requires
        call_ensures(parse, (args,), r),
    ensures
        r is Ok <==> parsed(args@) is Ok,
        r matches Err(e) ==> parsed(args@) == Err::<Order, CliError>(e),
        r matches Ok(Command::Help) <==> parsed(args@) == Ok::<Order, CliError>(Order::Help),
        r matches Ok(Command::Version) <==> parsed(args@) == Ok::<Order, CliError>(Order::Version),
        r matches Ok(Command::Run { path, daemon, debug, check }) ==> parsed(args@) == Ok::<
            Order,
            CliError,
        >(Order::Run { path: path@, daemon, debug, check }),
{
}

} // verus!
