//! The external programs: how they are found and run.

use vstd::prelude::*;
use vstd::string::*;
use vstd::utf8::{decode_utf8, encode_utf8, valid_utf8};

use crate::host::{
    agrees, contents, put_dirs, put_flag, put_run, Log, Request, RequestView, Running, Session,
    Step, Stop, StopView,
};
use crate::paths::{copied, file_name, join_path, joined, last_name};
use crate::text::{join2, join4, texts, trim, trimmed};
use crate::unicode::{bytes_of, decode_lossy, utf8_lossy};

verus! {

/// Looks for a file `name` in `dirs`, from the one at `i` on, and gives the
/// first there is.
pub open spec fn first_file(name: Seq<char>, dirs: Seq<Seq<u8>>, i: int, log: Log) -> Step<Seq<u8>>
    decreases dirs.len() - i,
{
    if i < 0 || i >= dirs.len() {
        (log, Err(StopView::Fail("required tool not found on PATH: "@ + name)))
    } else {
        let path = joined(dirs[i], encode_utf8(name));
        match put_flag(log, RequestView::IsFile { path }) {
            (next, Ok(true)) => (next, Ok(path)),
            (next, Ok(false)) => first_file(name, dirs, i + 1, next),
            (next, Err(stop)) => (next, Err(stop)),
        }
    }
}

/// Looks for the program `name` in the directories of the search path.
pub open spec fn which_spec(name: Seq<char>, log: Log) -> Step<Seq<u8>> {
    match put_dirs(log) {
        (next, Ok(dirs)) => first_file(name, dirs, 0, next),
        (next, Err(stop)) => (next, Err(stop)),
    }
}

/// Finds the program `name`: the first file of that name in the directories of
/// the search path.
pub fn which(name: &str, s: &mut Session) -> (r: Result<Vec<u8>, Stop>)
    ensures
        final(s)@ == which_spec(name@, old(s)@).0,
        agrees(r, which_spec(name@, old(s)@).1),
{
    let dirs = s.ask_dirs()?;
    let bytes: Vec<u8> = bytes_of(name);
    let ghost all = contents(dirs@);
    let ghost start = s@;
    let mut i: usize = 0;
    while i < dirs.len()
        invariant
            i <= dirs@.len(),
            all == contents(dirs@),
            bytes@ == encode_utf8(name@),
            first_file(name@, all, 0, start) == first_file(name@, all, i as int, s@),
            which_spec(name@, old(s)@) == first_file(name@, all, 0, start),
        decreases dirs@.len() - i,
    {
        let path: Vec<u8> = join_path(dirs[i].as_slice(), bytes.as_slice());
        assert(all[i as int] == dirs@[i as int]@);
        if s.ask_flag(Request::IsFile { path: copied(&path) })? {
            return Ok(path);
        }
        i = i + 1;
    }
    Err(Stop::Fail(join2("required tool not found on PATH: ", name)))
}

/// The message for a program that could not be run.
pub open spec fn not_run(program: Seq<char>, reason: Seq<char>) -> Seq<char> {
    "cannot run "@ + program + ": "@ + reason
}

/// The message for a program that ended without success.
pub open spec fn bad_exit(program: Seq<char>, status: Seq<char>, output: Seq<char>) -> Seq<char> {
    program + " exited with "@ + status + ": "@ + output
}

/// The message for a program that could not be run.
pub fn not_run_message(program: &str, reason: &str) -> (r: String)
    ensures
        r@ == not_run(program@, reason@),
{
    join4("cannot run ", program, ": ", reason)
}

/// The message for a program that ended without success.
pub fn bad_exit_message(program: &str, status: &str, output: &str) -> (r: String)
    ensures
        r@ == bad_exit(program@, status@, output@),
{
    let head: String = join4(program, " exited with ", status, ": ");
    join2(head.as_str(), output)
}

/// What `run` makes of the end of the program `cmd`.
pub open spec fn run_result(cmd: Seq<u8>, running: Running) -> Result<Seq<char>, StopView> {
    match running {
        Running::Failed(reason) => Err(StopView::Fail(not_run(utf8_lossy(cmd), reason@))),
        Running::Exited { success, status, stdout, stderr } => if success {
            Ok(utf8_lossy(stdout@))
        } else {
            let said = trimmed(utf8_lossy(stderr@));
            Err(
                StopView::Fail(
                    bad_exit(
                        utf8_lossy(last_name(cmd)),
                        status@,
                        if said.len() == 0 {
                            "no error output"@
                        } else {
                            said
                        },
                    ),
                ),
            )
        },
    }
}

/// Runs the program `cmd` and gives what it printed.
pub open spec fn run_spec(cmd: Seq<u8>, args: Seq<Seq<char>>, log: Log) -> Step<Seq<char>> {
    match put_run(log, cmd, args, true, true) {
        (next, Ok(running)) => (next, run_result(cmd, running)),
        (next, Err(stop)) => (next, Err(stop)),
    }
}

/// Runs the program `cmd` and gives what it printed; fails if it cannot be run
/// or ends without success. Output in UTF-8 is given as it is.
pub fn run(cmd: &Vec<u8>, args: Vec<String>, s: &mut Session) -> (r: Result<String, Stop>)
    ensures
        final(s)@ == run_spec(cmd@, texts(args@), old(s)@).0,
        agrees(r, run_spec(cmd@, texts(args@), old(s)@).1),
        r matches Ok(text) ==> put_run(old(s)@, cmd@, texts(args@), true, true).1 matches Ok(
            Running::Exited { stdout, .. },
        ) && (valid_utf8(stdout@) ==> text@ == decode_utf8(stdout@)),
{
    match s.ask_run(copied(cmd), args, true, true)? {
        Running::Failed(reason) => {
            let program: String = decode_lossy(cmd.as_slice());
            Err(Stop::Fail(not_run_message(program.as_str(), reason.as_str())))
        },
        Running::Exited { success, status, stdout, stderr } => if *success {
            Ok(decode_lossy(stdout.as_slice()))
        } else {
            let program: String = decode_lossy(file_name(cmd.as_slice()).as_slice());
            let said: String = trim(decode_lossy(stderr.as_slice()).as_str());
            let output: &str = if said.as_str().is_empty() {
                "no error output"
            } else {
                said.as_str()
            };
            Err(Stop::Fail(bad_exit_message(program.as_str(), status.as_str(), output)))
        },
    }
}

} // verus!
