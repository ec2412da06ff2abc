//! The decisions of the command line: how to show the traffic, and which
//! commands build and run the program.

use crate::text::{join2, texts};
use vstd::prelude::*;

verus! {

/// Whether to show the traffic on a full screen: streaming wins over a forced
/// screen, and without either option it depends on the terminal.
pub fn use_tui(stream: bool, tui: bool, is_terminal: bool) -> (yes: bool)
    ensures
        stream ==> !yes,
        !stream && tui ==> yes,
        !stream && !tui ==> yes == is_terminal,
{
    if stream {
        false
    } else if tui {
        true
    } else {
        is_terminal
    }
}

/// The arguments with which cargo builds the probes.
pub open spec fn build_args(release: bool) -> Seq<Seq<char>> {
    seq![
        "+nightly"@,
        "build"@,
        "--manifest-path"@,
        "dsnitch-ebpf/Cargo.toml"@,
        "--target"@,
        "bpfel-unknown-none"@,
        "-Z"@,
        "build-std=core"@,
    ] + (if release {
        seq!["--release"@]
    } else {
        seq![]
    })
}

/// The arguments with which cargo runs the program; what is handed on to the
/// program follows a separator.
pub open spec fn run_args(release: bool, args: Seq<Seq<char>>) -> Seq<Seq<char>> {
    seq!["run"@, "--package"@, "dsnitch"@] + (if release {
        seq!["--release"@]
    } else {
        seq![]
    }) + (if args.len() == 0 {
        seq![]
    } else {
        seq!["--"@] + args
    })
}

/// The arguments with which cargo builds the probes.
pub fn build_ebpf(release: bool) -> (args: Vec<String>)
    ensures
        texts(args@) == build_args(release),
{
    let mut args: Vec<String> = vec![
        "+nightly".to_owned(),
        "build".to_owned(),
        "--manifest-path".to_owned(),
        "dsnitch-ebpf/Cargo.toml".to_owned(),
        "--target".to_owned(),
        "bpfel-unknown-none".to_owned(),
        "-Z".to_owned(),
        "build-std=core".to_owned(),
    ];
    if release {
        args.push("--release".to_owned());
    }
    assert(texts(args@) =~= build_args(release));
    args
}

/// The arguments with which cargo runs the program, which gets `passed_on`.
pub fn run_userspace(release: bool, passed_on: Vec<String>) -> (args: Vec<String>)
    ensures
        texts(args@) == run_args(release, texts(passed_on@)),
{
    let mut rest = passed_on;
    let mut args: Vec<String> = vec!["run".to_owned(), "--package".to_owned(), "dsnitch".to_owned()];
    if release {
        args.push("--release".to_owned());
    }
    if rest.len() > 0 {
        args.push("--".to_owned());
        args.append(&mut rest);
    }
    assert(texts(args@) =~= run_args(release, texts(passed_on@)));
    args
}

/// What becomes of the build, given whether cargo succeeded and its exit status
/// as text.
pub fn build_outcome(success: bool, status: &str) -> (outcome: Result<(), String>)
    ensures
        success <==> outcome is Ok,
        outcome matches Err(message) ==> message@ == "eBPF build failed with exit status: "@
            + status@,
{
    if success {
        Ok(())
    } else {
        Err(join2("eBPF build failed with exit status: ", status))
    }
}

/// What becomes of the run, given whether the program succeeded and its exit
/// status as text.
pub fn run_outcome(success: bool, status: &str) -> (outcome: Result<(), String>)
    ensures
        success <==> outcome is Ok,
        outcome matches Err(message) ==> message@ == "dsnitch exited with status: "@ + status@,
{
    if success {
        Ok(())
    } else {
        Err(join2("dsnitch exited with status: ", status))
    }
}

/// What follows the separator is handed on to the program as it is, and just
/// when there is something to hand on there is a separator.
pub proof fn law_arguments_are_passed_on(release: bool, args: Seq<Seq<char>>)
    ensures
        args.len() > 0 ==> {
            let all = run_args(release, args);
            let at = all.len() - args.len();
            all[at - 1] == "--"@ && all.skip(at) == args
        },
        args.len() == 0 ==> run_args(release, args).len() == (if release {
            4int
        } else {
            3
        }),
{
    if args.len() > 0 {
        let all = run_args(release, args);
        assert(all.skip(all.len() - args.len()) =~= args);
    }
}

} // verus!
