//! What the command lines of the programs ask for.
//!
//! `<dir>` is optional on every command of `codrop`: without it the current directory is meant.

use crate::text::{same, texts, texts_push};
use vstd::prelude::*;

verus! {

// ---- model ---------------------------------------------------------------------------------
/// What a command line of `codrop` asks for.
pub enum Order {
    Run { dir: Seq<char>, peer: Option<Seq<char>> },
    Detach { dir: Seq<char> },
    Pair { dir: Seq<char>, id: Seq<char> },
    Ignore { dir: Seq<char>, pattern: Seq<char> },
    Id { dir: Seq<char> },
    Status { dir: Seq<char> },
    Stop { dir: Seq<char> },
    Help,
    Version,
    Unknown { word: Seq<char> },
    Misused { usage: Seq<char> },
}

/// A flag that asks for the background.
pub open spec fn is_detach(arg: Seq<char>) -> bool {
    arg == "--detach"@ || arg == "-d"@
}

/// The arguments of `run` that are neither `--peer` nor its value.
pub open spec fn plain(args: Seq<Seq<char>>) -> Seq<Seq<char>>
    decreases args.len(),
{
    if args.len() == 0 {
        Seq::empty()
    } else if args[0] == "--peer"@ {
        if args.len() == 1 {
            Seq::empty()
        } else {
            plain(args.skip(2))
        }
    } else {
        seq![args[0]] + plain(args.skip(1))
    }
}

/// Where the first `--peer` stands, or the number of arguments where there is none.
pub open spec fn peer_at(args: Seq<Seq<char>>) -> int
    decreases args.len(),
{
    if args.len() == 0 {
        0
    } else if args[0] == "--peer"@ {
        0
    } else {
        1 + peer_at(args.skip(1))
    }
}

/// One of the arguments asks for the background.
pub open spec fn detaches(args: Seq<Seq<char>>) -> bool {
    exists|i: int| 0 <= i < args.len() && is_detach(#[trigger] args[i])
}

/// The directory that is named first, or the current one.
pub open spec fn dir_of(args: Seq<Seq<char>>) -> Seq<char> {
    if args.len() > 0 {
        args[0]
    } else {
        "."@
    }
}

/// The arguments without the flags that ask for the background.
pub open spec fn attached(args: Seq<Seq<char>>) -> Seq<Seq<char>>
    decreases args.len(),
{
    if args.len() == 0 {
        Seq::empty()
    } else if is_detach(args[0]) {
        attached(args.skip(1))
    } else {
        seq![args[0]] + attached(args.skip(1))
    }
}

/// What the arguments behind `run` ask for. Going to the background comes first: the other
/// arguments are the background process's to deal with.
pub open spec fn run_order(args: Seq<Seq<char>>) -> Order {
    let at = peer_at(args);
    if detaches(args) {
        Order::Detach { dir: dir_of(plain(attached(args))) }
    } else if at == args.len() - 1 {
        Order::Misused { usage: "--peer needs an endpoint id"@ }
    } else {
        Order::Run {
            dir: dir_of(plain(args)),
            peer: if at < args.len() {
                Some(args[at + 1])
            } else {
                None
            },
        }
    }
}

/// What a command line asks for; its first entry is the name of the program.
pub open spec fn order(line: Seq<Seq<char>>) -> Order {
    if line.len() < 2 {
        Order::Help
    } else {
        let word = line[1];
        let args = line.skip(2);
        if word == "run"@ {
            run_order(args)
        } else if word == "pair"@ || word == "trust"@ {
            if args.len() == 0 {
                Order::Misused { usage: "usage: codrop pair [<dir>] <endpoint-id>"@ }
            } else if args.len() == 1 {
                Order::Pair { dir: "."@, id: args[0] }
            } else {
                Order::Pair { dir: args[0], id: args[1] }
            }
        } else if word == "ignore"@ {
            if args.len() == 0 {
                Order::Misused { usage: "usage: codrop ignore [<dir>] <file|subdir|glob>"@ }
            } else if args.len() == 1 {
                Order::Ignore { dir: "."@, pattern: args[0] }
            } else {
                Order::Ignore { dir: args[0], pattern: args[1] }
            }
        } else if word == "id"@ {
            Order::Id { dir: dir_of(args) }
        } else if word == "status"@ {
            Order::Status { dir: dir_of(args) }
        } else if word == "stop"@ {
            Order::Stop { dir: dir_of(args) }
        } else if word == "--help"@ || word == "-h"@ || word == "help"@ {
            Order::Help
        } else if word == "--version"@ || word == "-V"@ {
            Order::Version
        } else {
            Order::Unknown { word }
        }
    }
}

// ---- codrop --------------------------------------------------------------------------------
/// What a command line of `codrop` asks for.
#[derive(Debug, PartialEq, Eq)]
pub enum Command {
    /// Watch the directory and sync it with its paired peers.
    Run { dir: String, peer: Option<String> },
    /// Have a background process, with [`child_args`], watch the directory.
    Detach { dir: String },
    /// Pair with a peer: trust it and dial it.
    Pair { dir: String, id: String },
    /// Stop syncing matching paths.
    Ignore { dir: String, pattern: String },
    /// Print the directory's stable endpoint id.
    Id { dir: String },
    /// Show connected peers and sync state.
    Status { dir: String },
    /// Stop the daemon.
    Stop { dir: String },
    Help,
    Version,
    /// There is no such command.
    Unknown { word: String },
    /// The command lacks an argument.
    Misused { usage: String },
}

impl View for Command {
    type V = Order;

    open spec fn view(&self) -> Order {
        match *self {
            Command::Run { dir, peer } => Order::Run {
                dir: dir@,
                peer: match peer {
                    Some(p) => Some(p@),
                    None => None,
                },
            },
            Command::Detach { dir } => Order::Detach { dir: dir@ },
            Command::Pair { dir, id } => Order::Pair { dir: dir@, id: id@ },
            Command::Ignore { dir, pattern } => Order::Ignore { dir: dir@, pattern: pattern@ },
            Command::Id { dir } => Order::Id { dir: dir@ },
            Command::Status { dir } => Order::Status { dir: dir@ },
            Command::Stop { dir } => Order::Stop { dir: dir@ },
            Command::Help => Order::Help,
            Command::Version => Order::Version,
            Command::Unknown { word } => Order::Unknown { word: word@ },
            Command::Misused { usage } => Order::Misused { usage: usage@ },
        }
    }
}

/// The command line asks for this.
pub fn parse(line: &Vec<String>) -> (r: Command)
    ensures
        r@ == order(texts(line@)),
        line@.len() >= 2 && line@[1]@ == "id"@ ==> (r matches Command::Id { dir } && dir@ == (
        if line@.len() > 2 {
            line@[2]@
        } else {
            "."@
        })),
        line@.len() >= 2 && line@[1]@ == "status"@ ==> (r matches Command::Status { dir } && dir@ == (
        if line@.len() > 2 {
            line@[2]@
        } else {
            "."@
        })),
        line@.len() >= 2 && line@[1]@ == "stop"@ ==> (r matches Command::Stop { dir } && dir@ == (
        if line@.len() > 2 {
            line@[2]@
        } else {
            "."@
        })),
        line@.len() == 3 && (line@[1]@ == "pair"@ || line@[1]@ == "trust"@) ==> (
        r matches Command::Pair { dir, id } && dir@ == "."@ && id@ == line@[2]@),
        line@.len() > 3 && (line@[1]@ == "pair"@ || line@[1]@ == "trust"@) ==> (
        r matches Command::Pair { dir, id } && dir@ == line@[2]@ && id@ == line@[3]@),
        line@.len() == 3 && line@[1]@ == "ignore"@ ==> (r matches Command::Ignore { dir, pattern }
            && dir@ == "."@ && pattern@ == line@[2]@),
        line@.len() > 3 && line@[1]@ == "ignore"@ ==> (r matches Command::Ignore { dir, pattern }
            && dir@ == line@[2]@ && pattern@ == line@[3]@),
{
    proof {
        words_differ();
    }
    let ghost all = texts(line@);
    if line.len() < 2 {
        return Command::Help;
    }
    let ghost args = all.skip(2);
    proof {
        assert(all[1] == line@[1]@);
        assert(args.len() == line@.len() - 2);
        assert(line@.len() > 2 ==> args[0] == line@[2]@);
        assert(line@.len() > 3 ==> args[1] == line@[3]@);
    }
    let word = line[1].as_str();
    if same(word, "run") {
        return parse_run(line);
    }
    if same(word, "pair") || same(word, "trust") {
        if line.len() == 2 {
            return Command::Misused { usage: "usage: codrop pair [<dir>] <endpoint-id>".to_owned() };
        }
        if line.len() == 3 {
            return Command::Pair { dir: ".".to_owned(), id: line[2].clone() };
        }
        return Command::Pair { dir: line[2].clone(), id: line[3].clone() };
    }
    if same(word, "ignore") {
        if line.len() == 2 {
            return Command::Misused {
                usage: "usage: codrop ignore [<dir>] <file|subdir|glob>".to_owned(),
            };
        }
        if line.len() == 3 {
            return Command::Ignore { dir: ".".to_owned(), pattern: line[2].clone() };
        }
        return Command::Ignore { dir: line[2].clone(), pattern: line[3].clone() };
    }
    let dir = if line.len() > 2 {
        line[2].clone()
    } else {
        ".".to_owned()
    };
    if same(word, "id") {
        Command::Id { dir }
    } else if same(word, "status") {
        Command::Status { dir }
    } else if same(word, "stop") {
        Command::Stop { dir }
    } else if same(word, "--help") || same(word, "-h") || same(word, "help") {
        Command::Help
    } else if same(word, "--version") || same(word, "-V") {
        Command::Version
    } else {
        Command::Unknown { word: line[1].clone() }
    }
}

fn asks_detach(arg: &str) -> (r: bool)
    ensures
        r == is_detach(arg@),
{
    same(arg, "--detach") || same(arg, "-d")
}

fn parse_run(line: &Vec<String>) -> (r: Command)
    requires
        line@.len() >= 2,
        line@[1]@ == "run"@,
    ensures
        r@ == run_order(texts(line@).skip(2)),
{
    let ghost args = texts(line@).skip(2);
    let n = line.len();
    let mut detach = false;
    let mut peer_index: usize = n;
    let mut i: usize = 2;
    proof {
        assert(args.skip(0) =~= args);
    }
    while i < n
        invariant
            2 <= i <= n,
            n == line@.len(),
            args == texts(line@).skip(2),
            args.len() == n - 2,
            detach == (exists|j: int| 0 <= j < i - 2 && is_detach(#[trigger] args[j])),
            peer_index == n ==> peer_at(args) == (i - 2) + peer_at(args.skip(i - 2)),
            peer_index < n ==> peer_index < i && peer_index >= 2 && peer_at(args) == peer_index - 2,
            peer_index <= n,
        decreases n - i,
    {
        proof {
            assert(args[i - 2] == line@[i as int]@);
            assert(args.skip(i - 2)[0] == args[i - 2]);
            assert(args.skip(i - 2).skip(1) =~= args.skip(i - 1));
        }
        let arg = line[i].as_str();
        if asks_detach(arg) {
            detach = true;
        }
        if peer_index == n && same(arg, "--peer") {
            peer_index = i;
        }
        i += 1;
    }
    proof {
        assert(detach == detaches(args));
        assert(args.skip(n - 2).len() == 0);
    }
    if detach {
        let child = child_args(line);
        proof {
            run_is_no_flag();
            let all = texts(line@);
            assert(all.skip(1)[0] == line@[1]@);
            assert(all.skip(1).skip(1) =~= args);
            assert(texts(child@) =~= seq!["run"@] + attached(args));
            assert(texts(child@).skip(1) =~= attached(args));
            assert(texts(child@).len() == child@.len());
        }
        return Command::Detach { dir: first_plain(&child, 1) };
    }
    if peer_index < n && peer_index == n - 1 {
        return Command::Misused { usage: "--peer needs an endpoint id".to_owned() };
    }
    let peer = if peer_index < n {
        proof {
            assert(args[peer_index - 1] == line@[peer_index + 1]@);
        }
        Some(line[peer_index + 1].clone())
    } else {
        None
    };
    let dir = first_plain(line, 2);
    Command::Run { dir, peer }
}

/// The directory among the arguments of `run` from `from` on.
fn first_plain(line: &Vec<String>, from: usize) -> (r: String)
    requires
        from <= line@.len(),
    ensures
        r@ == dir_of(plain(texts(line@).skip(from as int))),
{
    let ghost all = texts(line@);
    let mut i: usize = from;
    while i < line.len()
        invariant
            i <= line@.len(),
            all == texts(line@),
            plain(all.skip(from as int)) == plain(all.skip(i as int)),
        decreases line@.len() - i,
    {
        let arg = line[i].as_str();
        proof {
            assert(all.skip(i as int)[0] == line@[i as int]@);
            assert(all.skip(i as int).skip(1) =~= all.skip(i + 1));
        }
        if same(arg, "--peer") {
            if i == line.len() - 1 {
                return ".".to_owned();
            }
            proof {
                assert(all.skip(i as int).skip(2) =~= all.skip(i + 2));
            }
            i += 2;
        } else {
            return line[i].clone();
        }
    }
    proof {
        assert(all.skip(line@.len() as int).len() == 0);
    }
    ".".to_owned()
}

/// The arguments of the background process: those of this one, without the program's name and
/// the flag that asks for the background.
pub fn child_args(line: &Vec<String>) -> (out: Vec<String>)
    ensures
        texts(out@) == if line@.len() == 0 {
            Seq::empty()
        } else {
            attached(texts(line@).skip(1))
        },
{
    let ghost all = texts(line@);
    let mut out: Vec<String> = Vec::new();
    if line.len() == 0 {
        proof {
            assert(texts(out@) =~= Seq::<Seq<char>>::empty());
        }
        return out;
    }
    let mut i: usize = 1;
    proof {
        assert(texts(out@) + attached(all.skip(1)) =~= attached(all.skip(1)));
    }
    while i < line.len()
        invariant
            1 <= i <= line@.len(),
            all == texts(line@),
            texts(out@) + attached(all.skip(i as int)) == attached(all.skip(1)),
        decreases line@.len() - i,
    {
        proof {
            assert(all.skip(i as int)[0] == line@[i as int]@);
            assert(all.skip(i as int).skip(1) =~= all.skip(i + 1));
        }
        if !asks_detach(line[i].as_str()) {
            let arg = line[i].clone();
            proof {
                texts_push(out@, arg);
                assert(texts(out@).push(arg@) + attached(all.skip(i + 1)) =~= texts(out@) + (seq![
                    arg@,
                ] + attached(all.skip(i + 1))));
            }
            out.push(arg);
        }
        i += 1;
    }
    proof {
        assert(all.skip(line@.len() as int).len() == 0);
        assert(texts(out@) + attached(all.skip(line@.len() as int)) =~= texts(out@));
    }
    out
}

// ---- codrop-net ----------------------------------------------------------------------------
/// What a command line of `codrop-net` asks for.
#[derive(Debug, PartialEq, Eq)]
pub enum NetCommand {
    /// Index a tree and serve it.
    Serve { dir: String },
    /// Pull a peer's files into a tree, once.
    Pull { dir: String, id: String },
    /// The command lacks an argument, or there is no such command.
    Misused { usage: String },
}

/// The command line asks for this; its first entry is the name of the program.
pub fn parse_net(line: &Vec<String>) -> (r: NetCommand)
    ensures
        ({
            let all = texts(line@);
            if all.len() >= 2 && all[1] == "serve"@ {
                r matches NetCommand::Serve { dir } && dir@ == dir_of(all.skip(2)) && dir@ == (
                if all.len() > 2 {
                    all[2]
                } else {
                    "."@
                })
            } else if all.len() >= 2 && all[1] == "pull"@ {
                if all.len() >= 4 {
                    r matches NetCommand::Pull { dir, id } && dir@ == all[2] && id@ == all[3]
                } else {
                    r matches NetCommand::Misused { usage } && usage@ == "usage: pull <root> <id>"@
                }
            } else {
                r matches NetCommand::Misused { usage } && usage@
                    == "usage: codrop-net <serve|pull> ..."@
            }
        }),
{
    if line.len() >= 2 {
        let word = line[1].as_str();
        proof {
            assert(texts(line@)[1] == line@[1]@);
            assert(line@.len() > 2 ==> texts(line@).skip(2)[0] == line@[2]@);
        }
        if same(word, "serve") {
            let dir = if line.len() > 2 {
                line[2].clone()
            } else {
                ".".to_owned()
            };
            return NetCommand::Serve { dir };
        }
        if same(word, "pull") {
            if line.len() >= 4 {
                return NetCommand::Pull { dir: line[2].clone(), id: line[3].clone() };
            }
            return NetCommand::Misused { usage: "usage: pull <root> <id>".to_owned() };
        }
    }
    NetCommand::Misused { usage: "usage: codrop-net <serve|pull> ...".to_owned() }
}

// ---- laws ----------------------------------------------------------------------------------
proof fn run_is_no_flag()
    ensures
        !is_detach("run"@),
{
    reveal_strlit("run");
    reveal_strlit("--detach");
    reveal_strlit("-d");
    assert("run"@.len() == 3);
    assert("--detach"@.len() == 8);
    assert("-d"@.len() == 2);
}

proof fn attached_has_no_flag(args: Seq<Seq<char>>)
    ensures
        !detaches(attached(args)),
        !detaches(args) ==> attached(args) == args,
    decreases args.len(),
{
    if args.len() > 0 {
        let rest = args.skip(1);
        let kept = attached(args);
        attached_has_no_flag(rest);
        if detaches(rest) {
            let i = choose|i: int| 0 <= i < rest.len() && is_detach(#[trigger] rest[i]);
            assert(is_detach(args[i + 1]));
        }
        if is_detach(args[0]) {
            assert(detaches(args));
        } else {
            if detaches(kept) {
                let i = choose|i: int| 0 <= i < kept.len() && is_detach(#[trigger] kept[i]);
                assert(is_detach(attached(rest)[i - 1]));
            }
            if !detaches(args) {
                assert(kept =~= args);
            }
        }
    } else {
        assert(attached(args) =~= args);
    }
}

/// The background process is asked for what the command line without the flags asks for: it does
/// not go to the background again, runs in the directory that was reported, and has the say on
/// what is wrong with the other arguments.
pub proof fn child_runs_attached(line: Seq<Seq<char>>)
    requires
        line.len() >= 2,
        line[1] == "run"@,
        detaches(line.skip(2)),
    ensures
        ({
            let child = seq![line[0]] + attached(line.skip(1));
            &&& order(child) == run_order(attached(line.skip(2)))
            &&& order(child) is Run || order(child) is Misused
            &&& order(line) is Detach
            &&& order(child) matches Order::Run { dir, peer: _ } ==> order(line) == (
            Order::Detach { dir })
        }),
{
    run_is_no_flag();
    let args = line.skip(2);
    attached_has_no_flag(args);
    assert(line.skip(1)[0] == line[1]);
    assert(line.skip(1).skip(1) =~= args);
    let child = seq![line[0]] + attached(line.skip(1));
    assert(attached(line.skip(1)) == seq![line[1]] + attached(args));
    assert(child[1] == line[1]);
    assert(child.skip(2) =~= attached(args));
}

proof fn words_differ()
    ensures
        "run"@ != "pair"@,
        "run"@ != "trust"@,
        "run"@ != "ignore"@,
        "run"@ != "id"@,
        "run"@ != "status"@,
        "run"@ != "stop"@,
        "run"@ != "--help"@,
        "run"@ != "-h"@,
        "run"@ != "help"@,
        "run"@ != "--version"@,
        "run"@ != "-V"@,
        "run"@ != "--peer"@,
        "run"@ != "--detach"@,
        "run"@ != "-d"@,
        "pair"@ != "trust"@,
        "pair"@ != "ignore"@,
        "pair"@ != "id"@,
        "pair"@ != "status"@,
        "pair"@ != "stop"@,
        "pair"@ != "--help"@,
        "pair"@ != "-h"@,
        "pair"@ != "help"@,
        "pair"@ != "--version"@,
        "pair"@ != "-V"@,
        "pair"@ != "--peer"@,
        "pair"@ != "--detach"@,
        "pair"@ != "-d"@,
        "trust"@ != "ignore"@,
        "trust"@ != "id"@,
        "trust"@ != "status"@,
        "trust"@ != "stop"@,
        "trust"@ != "--help"@,
        "trust"@ != "-h"@,
        "trust"@ != "help"@,
        "trust"@ != "--version"@,
        "trust"@ != "-V"@,
        "trust"@ != "--peer"@,
        "trust"@ != "--detach"@,
        "trust"@ != "-d"@,
        "ignore"@ != "id"@,
        "ignore"@ != "status"@,
        "ignore"@ != "stop"@,
        "ignore"@ != "--help"@,
        "ignore"@ != "-h"@,
        "ignore"@ != "help"@,
        "ignore"@ != "--version"@,
        "ignore"@ != "-V"@,
        "ignore"@ != "--peer"@,
        "ignore"@ != "--detach"@,
        "ignore"@ != "-d"@,
        "id"@ != "status"@,
        "id"@ != "stop"@,
        "id"@ != "--help"@,
        "id"@ != "-h"@,
        "id"@ != "help"@,
        "id"@ != "--version"@,
        "id"@ != "-V"@,
        "id"@ != "--peer"@,
        "id"@ != "--detach"@,
        "id"@ != "-d"@,
        "status"@ != "stop"@,
        "status"@ != "--help"@,
        "status"@ != "-h"@,
        "status"@ != "help"@,
        "status"@ != "--version"@,
        "status"@ != "-V"@,
        "status"@ != "--peer"@,
        "status"@ != "--detach"@,
        "status"@ != "-d"@,
        "stop"@ != "--help"@,
        "stop"@ != "-h"@,
        "stop"@ != "help"@,
        "stop"@ != "--version"@,
        "stop"@ != "-V"@,
        "stop"@ != "--peer"@,
        "stop"@ != "--detach"@,
        "stop"@ != "-d"@,
        "--help"@ != "-h"@,
        "--help"@ != "help"@,
        "--help"@ != "--version"@,
        "--help"@ != "-V"@,
        "--help"@ != "--peer"@,
        "--help"@ != "--detach"@,
        "--help"@ != "-d"@,
        "-h"@ != "help"@,
        "-h"@ != "--version"@,
        "-h"@ != "-V"@,
        "-h"@ != "--peer"@,
        "-h"@ != "--detach"@,
        "-h"@ != "-d"@,
        "help"@ != "--version"@,
        "help"@ != "-V"@,
        "help"@ != "--peer"@,
        "help"@ != "--detach"@,
        "help"@ != "-d"@,
        "--version"@ != "-V"@,
        "--version"@ != "--peer"@,
        "--version"@ != "--detach"@,
        "--version"@ != "-d"@,
        "-V"@ != "--peer"@,
        "-V"@ != "--detach"@,
        "-V"@ != "-d"@,
        "--peer"@ != "--detach"@,
        "--peer"@ != "-d"@,
        "--detach"@ != "-d"@,
{
    reveal_strlit("run");
    reveal_strlit("pair");
    reveal_strlit("trust");
    reveal_strlit("ignore");
    reveal_strlit("id");
    reveal_strlit("status");
    reveal_strlit("stop");
    reveal_strlit("--help");
    reveal_strlit("-h");
    reveal_strlit("help");
    reveal_strlit("--version");
    reveal_strlit("-V");
    reveal_strlit("--peer");
    reveal_strlit("--detach");
    reveal_strlit("-d");
    assert("run"@.len() == 3 && "run"@[0] == 'r' && "run"@[1] == 'u' && "run"@[2] == 'n');
    assert("pair"@.len() == 4 && "pair"@[0] == 'p' && "pair"@[1] == 'a' && "pair"@[2] == 'i');
    assert("trust"@.len() == 5 && "trust"@[0] == 't' && "trust"@[1] == 'r' && "trust"@[2] == 'u');
    assert("ignore"@.len() == 6 && "ignore"@[0] == 'i' && "ignore"@[1] == 'g' && "ignore"@[2] == 'n');
    assert("id"@.len() == 2 && "id"@[0] == 'i' && "id"@[1] == 'd');
    assert("status"@.len() == 6 && "status"@[0] == 's' && "status"@[1] == 't' && "status"@[2] == 'a');
    assert("stop"@.len() == 4 && "stop"@[0] == 's' && "stop"@[1] == 't' && "stop"@[2] == 'o');
    assert("--help"@.len() == 6 && "--help"@[0] == '-' && "--help"@[1] == '-' && "--help"@[2] == 'h');
    assert("-h"@.len() == 2 && "-h"@[0] == '-' && "-h"@[1] == 'h');
    assert("help"@.len() == 4 && "help"@[0] == 'h' && "help"@[1] == 'e' && "help"@[2] == 'l');
    assert("--version"@.len() == 9 && "--version"@[0] == '-' && "--version"@[1] == '-' && "--version"@[2] == 'v');
    assert("-V"@.len() == 2 && "-V"@[0] == '-' && "-V"@[1] == 'V');
    assert("--peer"@.len() == 6 && "--peer"@[0] == '-' && "--peer"@[1] == '-' && "--peer"@[2] == 'p');
    assert("--detach"@.len() == 8 && "--detach"@[0] == '-' && "--detach"@[1] == '-' && "--detach"@[2] == 'd');
    assert("-d"@.len() == 2 && "-d"@[0] == '-' && "-d"@[1] == 'd');
}

/// `id`, `status` and `stop` act on the directory that is named behind them, or else on the
/// current one.
pub proof fn commands_act_on_the_named_directory(line: Seq<Seq<char>>)
    requires
        line.len() >= 2,
    ensures
        ({
            let dir = if line.len() > 2 {
                line[2]
            } else {
                "."@
            };
            &&& line[1] == "id"@ ==> order(line) == (Order::Id { dir })
            &&& line[1] == "status"@ ==> order(line) == (Order::Status { dir })
            &&& line[1] == "stop"@ ==> order(line) == (Order::Stop { dir })
        }),
{
    words_differ();
}

/// `pair`, also under the name `trust`, and `ignore` take their last argument for the directory
/// that is named before it, or else for the current one, and need that argument.
pub proof fn arguments_are_taken_for_the_named_directory(line: Seq<Seq<char>>)
    requires
        line.len() >= 2,
    ensures
        line[1] == "pair"@ || line[1] == "trust"@ ==> match order(line) {
            Order::Pair { dir, id } => (line.len() == 3 && dir == "."@ && id == line[2]) || (
            line.len() > 3 && dir == line[2] && id == line[3]),
            Order::Misused { usage } => line.len() == 2 && usage
                == "usage: codrop pair [<dir>] <endpoint-id>"@,
            _ => false,
        },
        line[1] == "ignore"@ ==> match order(line) {
            Order::Ignore { dir, pattern } => (line.len() == 3 && dir == "."@ && pattern
                == line[2]) || (line.len() > 3 && dir == line[2] && pattern == line[3]),
            Order::Misused { usage } => line.len() == 2 && usage
                == "usage: codrop ignore [<dir>] <file|subdir|glob>"@,
            _ => false,
        },
{
    words_differ();
}

/// Help is given where nothing is asked for, or help is; the version where it is asked for; and
/// any other word is reported as it is.
pub proof fn other_words_are_reported(line: Seq<Seq<char>>)
    ensures
        line.len() < 2 ==> order(line) == Order::Help,
        line.len() >= 2 && (line[1] == "--help"@ || line[1] == "-h"@ || line[1] == "help"@)
            ==> order(line) == Order::Help,
        line.len() >= 2 && (line[1] == "--version"@ || line[1] == "-V"@) ==> order(line)
            == Order::Version,
        line.len() >= 2 && !seq![
            "run"@,
            "pair"@,
            "trust"@,
            "ignore"@,
            "id"@,
            "status"@,
            "stop"@,
            "--help"@,
            "-h"@,
            "help"@,
            "--version"@,
            "-V"@,
        ].contains(line[1]) ==> order(line) == (Order::Unknown { word: line[1] }),
{
    words_differ();
    let known = seq![
        "run"@,
        "pair"@,
        "trust"@,
        "ignore"@,
        "id"@,
        "status"@,
        "stop"@,
        "--help"@,
        "-h"@,
        "help"@,
        "--version"@,
        "-V"@,
    ];
    assert(known[0] == "run"@ && known[1] == "pair"@ && known[2] == "trust"@ && known[3]
        == "ignore"@ && known[4] == "id"@ && known[5] == "status"@ && known[6] == "stop"@
        && known[7] == "--help"@ && known[8] == "-h"@ && known[9] == "help"@ && known[10]
        == "--version"@ && known[11] == "-V"@);
}

/// None of the arguments is `--peer`, `--detach` or `-d`.
pub open spec fn no_flags(args: Seq<Seq<char>>) -> bool {
    forall|i: int|
        0 <= i < args.len() ==> #[trigger] args[i] != "--peer"@ && args[i] != "--detach"@ && args[i]
            != "-d"@
}

proof fn peer_is_at(args: Seq<Seq<char>>, k: int)
    requires
        0 <= k <= args.len(),
        k < args.len() ==> args[k] == "--peer"@,
        forall|i: int| 0 <= i < k ==> #[trigger] args[i] != "--peer"@,
    ensures
        peer_at(args) == k,
    decreases k,
{
    if k > 0 {
        let rest = args.skip(1);
        assert(args[0] != "--peer"@);
        assert forall|i: int| 0 <= i < k - 1 implies #[trigger] rest[i] != "--peer"@ by {
            assert(args[i + 1] != "--peer"@);
        }
        peer_is_at(rest, k - 1);
    }
}

/// `run` watches the directory that is named, wherever the peer is named: the first argument, or
/// the first behind `--peer` and its value, or else the current one. The peer is what stands
/// behind `--peer`, which needs it.
pub proof fn run_takes_the_named_directory_and_peer(
    before: Seq<Seq<char>>,
    id: Seq<char>,
    behind: Seq<Seq<char>>,
)
    requires
        no_flags(before),
        no_flags(behind),
        id != "--detach"@,
        id != "-d"@,
    ensures
        run_order(before) == (Order::Run {
            dir: if before.len() > 0 {
                before[0]
            } else {
                "."@
            },
            peer: None,
        }),
        run_order(before + seq!["--peer"@, id] + behind) == (Order::Run {
            dir: if before.len() > 0 {
                before[0]
            } else if behind.len() > 0 {
                behind[0]
            } else {
                "."@
            },
            peer: Some(id),
        }),
        run_order(before.push("--peer"@)) == (Order::Misused {
            usage: "--peer needs an endpoint id"@,
        }),
{
    words_differ();
    let args = before + seq!["--peer"@, id] + behind;
    let n = before.len() as int;
    peer_is_at(before, n);
    assert forall|i: int| 0 <= i < n implies #[trigger] args[i] != "--peer"@ by {
        assert(args[i] == before[i]);
    }
    assert(args[n] == "--peer"@);
    peer_is_at(args, n);
    assert(args[n + 1] == id);
    assert forall|i: int| 0 <= i < args.len() implies !is_detach(#[trigger] args[i]) by {
        if i < n {
            assert(args[i] == before[i]);
        } else if i > n + 1 {
            assert(args[i] == behind[i - n - 2]);
        }
    }
    let last = before.push("--peer"@);
    assert forall|i: int| 0 <= i < n implies #[trigger] last[i] != "--peer"@ by {
        assert(last[i] == before[i]);
    }
    peer_is_at(last, n);
    assert forall|i: int| 0 <= i < last.len() implies !is_detach(#[trigger] last[i]) by {
        if i < n {
            assert(last[i] == before[i]);
        }
    }
    if n > 0 {
        assert(args[0] == before[0]);
        assert(plain(args)[0] == args[0]);
        assert(plain(before)[0] == before[0]);
    } else {
        assert(args.skip(2) =~= behind);
        assert(plain(args) == plain(behind));
        if behind.len() > 0 {
            assert(behind[0] != "--peer"@);
            assert(plain(behind)[0] == behind[0]);
        }
    }
}

/// A flag that asks for the background sends `run` there, whatever else is asked for, in the
/// directory that is named first, or else in the current one.
pub proof fn flags_send_run_to_the_background(args: Seq<Seq<char>>, i: int)
    requires
        0 <= i < args.len(),
        args[i] == "--detach"@ || args[i] == "-d"@,
    ensures
        run_order(args) is Detach,
        args[0] != "--peer"@ && args[0] != "--detach"@ && args[0] != "-d"@ ==> run_order(args) == (
        Order::Detach { dir: args[0] }),
        args.len() == 1 ==> run_order(args) == (Order::Detach { dir: "."@ }),
{
    words_differ();
    assert(is_detach(args[i]));
    if args[0] != "--peer"@ && args[0] != "--detach"@ && args[0] != "-d"@ {
        assert(attached(args)[0] == args[0]);
        assert(plain(attached(args))[0] == args[0]);
    }
    if args.len() == 1 {
        assert(attached(args.skip(1)).len() == 0);
        assert(attached(args).len() == 0);
        assert(plain(attached(args)).len() == 0);
    }
}

/// The background process gets every argument but the flags that ask for it, in order.
pub proof fn only_the_flags_are_left_out(a: Seq<Seq<char>>, arg: Seq<char>)
    ensures
        attached(Seq::<Seq<char>>::empty()).len() == 0,
        arg == "--detach"@ || arg == "-d"@ ==> attached(a.push(arg)) == attached(a),
        arg != "--detach"@ && arg != "-d"@ ==> attached(a.push(arg)) == attached(a).push(arg),
    decreases a.len(),
{
    let all = a.push(arg);
    if a.len() == 0 {
        assert(all.skip(1).len() == 0);
        assert(attached(all.skip(1)) =~= Seq::<Seq<char>>::empty());
        assert(attached(a) =~= Seq::<Seq<char>>::empty());
        assert(all[0] == arg);
        assert(attached(all) =~= if is_detach(arg) {
            Seq::<Seq<char>>::empty()
        } else {
            seq![arg]
        });
        assert(attached(a).push(arg) =~= seq![arg]);
    } else {
        only_the_flags_are_left_out(a.skip(1), arg);
        assert(all.skip(1) =~= a.skip(1).push(arg));
        assert(all[0] == a[0]);
        assert((seq![a[0]] + attached(a.skip(1))).push(arg) =~= seq![a[0]] + attached(
            a.skip(1),
        ).push(arg));
    }
}

/// A command says what it is, and what it is to act on.
pub proof fn commands_say_their_fields(a: String, b: String)
    ensures
        (Command::Run { dir: a, peer: Some(b) })@ == (Order::Run { dir: a@, peer: Some(b@) }),
        (Command::Run { dir: a, peer: None })@ == (Order::Run { dir: a@, peer: None }),
        (Command::Detach { dir: a })@ == (Order::Detach { dir: a@ }),
        (Command::Pair { dir: a, id: b })@ == (Order::Pair { dir: a@, id: b@ }),
        (Command::Ignore { dir: a, pattern: b })@ == (Order::Ignore { dir: a@, pattern: b@ }),
        (Command::Id { dir: a })@ == (Order::Id { dir: a@ }),
        (Command::Status { dir: a })@ == (Order::Status { dir: a@ }),
        (Command::Stop { dir: a })@ == (Order::Stop { dir: a@ }),
        Command::Help@ is Help,
        Command::Version@ is Version,
        (Command::Unknown { word: a })@ == (Order::Unknown { word: a@ }),
        (Command::Misused { usage: a })@ == (Order::Misused { usage: a@ }),
{
}

} // verus!
