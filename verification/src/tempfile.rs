//! Files in private temporary directories.
//!
//! Each file gets a directory of its own, which is made with a single request
//! and refused if the name exists. That avoids the race over predictable names
//! that comes with files made directly in a directory that all can write to.

use vstd::prelude::*;
use vstd::string::*;
use vstd::utf8::encode_utf8;

use crate::host::{
    agrees, contents, outcome, put_create, put_discard, put_flag, put_place, put_stamp, Creation,
    Log, Request, RequestView, Session, Step, Stop, StopView,
};
use crate::paths::{copied, join_path, joined, paths_equal, same_path};
use crate::text::{decimal, join2, join4, number};
use crate::unicode::{bytes_of, decode_lossy, utf8_lossy};

verus! {

/// How many names are tried in one directory.
pub const ATTEMPTS: u32 = 32;

/// A file in a private temporary directory.
#[derive(Debug)]
pub struct TempFile {
    pub path: Vec<u8>,
    pub dir: Vec<u8>,
}

/// The contents of a [`TempFile`].
pub struct TempFileView {
    pub path: Seq<u8>,
    pub dir: Seq<u8>,
}

impl View for TempFile {
    type V = TempFileView;

    open spec fn view(&self) -> TempFileView {
        TempFileView { path: self.path@, dir: self.dir@ }
    }
}

/// The directory for temporary files that is always there.
pub open spec fn fallback_dir() -> Seq<u8> {
    encode_utf8("/tmp"@)
}

/// The directories for temporary files, in the order of preference.
pub open spec fn dirs_to_try(runtime: Option<Seq<u8>>) -> Seq<Seq<u8>> {
    match runtime {
        Some(dir) => if same_path(dir, fallback_dir()) {
            seq![dir]
        } else {
            seq![dir, fallback_dir()]
        },
        None => seq![fallback_dir()],
    }
}

/// Keeps a place only if it is a directory.
pub open spec fn checked(place: Option<Seq<u8>>, log: Log) -> Step<Option<Seq<u8>>> {
    match place {
        Some(path) => match put_flag(log, RequestView::IsDir { path }) {
            (next, Ok(true)) => (next, Ok(Some(path))),
            (next, Ok(false)) => (next, Ok(None)),
            (next, Err(stop)) => (next, Err(stop)),
        },
        None => (log, Ok(None)),
    }
}

/// Asks for the directory of the login session, which counts only if it is one.
pub open spec fn runtime_dir_spec(log: Log) -> Step<Option<Seq<u8>>> {
    match put_place(log) {
        (next, Ok(place)) => checked(place, next),
        (next, Err(stop)) => (next, Err(stop)),
    }
}

/// Names the directories for temporary files.
pub open spec fn temp_dirs_spec(log: Log) -> Step<Seq<Seq<u8>>> {
    match runtime_dir_spec(log) {
        (next, Ok(runtime)) => (next, Ok(dirs_to_try(runtime))),
        (next, Err(stop)) => (next, Err(stop)),
    }
}

fn runtime_dir(s: &mut Session) -> (r: Result<Option<Vec<u8>>, Stop>)
    ensures
        final(s)@ == runtime_dir_spec(old(s)@).0,
        (match (r, runtime_dir_spec(old(s)@).1) {
            (Ok(Some(dir)), Ok(Some(want))) => dir@ == want,
            (Ok(None), Ok(None)) => true,
            (Err(stop), Err(want)) => stop@ == want,
            _ => false,
        }),
{
    match s.ask_place()? {
        Some(path) => if s.ask_flag(Request::IsDir { path: copied(path) })? {
            Ok(Some(copied(path)))
        } else {
            Ok(None)
        },
        None => Ok(None),
    }
}

/// The directories for temporary files, in the order of preference: the one of
/// the login session, then `/tmp`.
pub fn temp_dirs(s: &mut Session) -> (r: Result<Vec<Vec<u8>>, Stop>)
    ensures
        final(s)@ == temp_dirs_spec(old(s)@).0,
        (match (r, temp_dirs_spec(old(s)@).1) {
            (Ok(dirs), Ok(want)) => contents(dirs@) == want,
            (Err(stop), Err(want)) => stop@ == want,
            _ => false,
        }),
{
    let fallback: Vec<u8> = bytes_of("/tmp");
    let mut dirs: Vec<Vec<u8>> = Vec::new();
    match runtime_dir(s)? {
        Some(dir) => {
            if paths_equal(dir.as_slice(), fallback.as_slice()) {
                dirs.push(dir);
                assert(contents(dirs@) =~= seq![dir@]);
            } else {
                dirs.push(dir);
                dirs.push(fallback);
                assert(contents(dirs@) =~= seq![dir@, fallback@]);
            }
        },
        None => {
            dirs.push(fallback);
            assert(contents(dirs@) =~= seq![fallback@]);
        },
    }
    Ok(dirs)
}

/// What the names of one run have in common.
pub struct Naming {
    pub prefix: Seq<char>,
    pub ext: Seq<char>,
    pub nonce: u128,
    pub pid: u32,
}

/// The name of a private directory.
pub open spec fn dir_name(n: Naming, serial: nat, attempt: nat) -> Seq<char> {
    "textify-"@ + n.prefix + "-"@ + decimal(n.pid as nat) + "-"@ + decimal(n.nonce as nat) + "-"@
        + decimal(serial) + "-"@ + decimal(attempt)
}

/// The path of a private directory in `base`.
pub open spec fn dir_path(n: Naming, base: Seq<u8>, serial: nat, attempt: nat) -> Seq<u8> {
    joined(base, encode_utf8(dir_name(n, serial, attempt)))
}

/// The temporary file in the private directory `dir`.
pub open spec fn file_in(n: Naming, dir: Seq<u8>) -> TempFileView {
    TempFileView { path: joined(dir, encode_utf8("output."@ + n.ext)), dir }
}

/// The message for a directory that could not be made.
pub open spec fn not_made(dir: Seq<u8>, reason: Seq<char>) -> Seq<char> {
    "cannot create secure temp directory "@ + utf8_lossy(dir) + ": "@ + reason
}

/// Tries names in `dirs[d]`, from attempt `a` on, and in the directories after
/// it, until a directory is made. A name that exists is passed over; so is a
/// place that cannot be written to.
pub open spec fn attempts(n: Naming, dirs: Seq<Seq<u8>>, d: int, a: nat, log: Log) -> Step<
    TempFileView,
>
    decreases dirs.len() - d, ATTEMPTS - a,
{
    if d < 0 || d >= dirs.len() {
        (log, Err(StopView::Fail("could not create a unique secure temp directory"@)))
    } else if a >= ATTEMPTS {
        attempts(n, dirs, d + 1, 0, log)
    } else {
        let dir = dir_path(n, dirs[d], log.serial, a);
        match put_create(log, dir) {
            (next, Ok(Creation::Made)) => (next, Ok(file_in(n, dir))),
            (next, Ok(Creation::Exists)) => attempts(n, dirs, d, a + 1, next),
            (next, Ok(Creation::Denied)) => attempts(n, dirs, d + 1, 0, next),
            (next, Ok(Creation::Failed(reason))) => (
                next,
                Err(StopView::Fail(not_made(dir, reason@))),
            ),
            (next, Err(stop)) => (next, Err(stop)),
        }
    }
}

/// Makes a private directory under the names that `n` allows.
pub open spec fn named(n: Naming, log: Log) -> Step<TempFileView> {
    match temp_dirs_spec(log) {
        (next, Ok(dirs)) => attempts(n, dirs, 0, 0, next),
        (next, Err(stop)) => (next, Err(stop)),
    }
}

/// Makes a private directory for a file `output.ext`.
pub open spec fn new_temp_spec(prefix: Seq<char>, ext: Seq<char>, log: Log) -> Step<TempFileView> {
    match put_stamp(log) {
        (next, Ok((nonce, pid))) => named(Naming { prefix, ext, nonce, pid }, next),
        (next, Err(stop)) => (next, Err(stop)),
    }
}

/// Has a temporary file and its directory removed.
pub open spec fn discard_spec(file: TempFileView, log: Log) -> Step<()> {
    put_discard(log, file.path, file.dir)
}

/// Ends the use of a file after a step: once the step has come to its end, well
/// or not, the file is removed.
pub open spec fn released<T>(file: TempFileView, step: Step<T>) -> Step<T> {
    match step {
        (_, Err(StopView::Ask(_))) => step,
        (_, Err(StopView::Mismatch)) => step,
        (log, result) => match discard_spec(file, log) {
            (next, Ok(())) => (next, result),
            (next, Err(stop)) => (next, Err(stop)),
        },
    }
}

/// Keeps a file that a step has filled: if the step failed, the file is removed.
pub open spec fn kept(file: TempFileView, step: Step<()>) -> Step<TempFileView> {
    match step {
        (log, Ok(())) => (log, Ok(file)),
        (log, Err(StopView::Fail(message))) => match discard_spec(file, log) {
            (next, Ok(())) => (next, Err(StopView::Fail(message))),
            (next, Err(stop)) => (next, Err(stop)),
        },
        (log, Err(stop)) => (log, Err(stop)),
    }
}

fn make_name(prefix: &str, pid: u32, nonce: u128, serial: u64, attempt: u32) -> (r: String)
    ensures
        forall|n: Naming|
            n.prefix == prefix@ && n.pid == pid && n.nonce == nonce ==> r@ == #[trigger] dir_name(
                n,
                serial as nat,
                attempt as nat,
            ),
{
    let mut r: String = join4(
        "textify-",
        prefix,
        "-",
        number(pid as u128).as_str(),
    );
    r.append("-");
    r.append(number(nonce).as_str());
    r.append("-");
    r.append(number(serial as u128).as_str());
    r.append("-");
    r.append(number(attempt as u128).as_str());
    r
}

impl TempFile {
    /// Makes a private directory for a file `output.ext`.
    pub fn new(prefix: &str, ext: &str, s: &mut Session) -> (r: Result<TempFile, Stop>)
        ensures
            final(s)@ == new_temp_spec(prefix@, ext@, old(s)@).0,
            agrees(r, new_temp_spec(prefix@, ext@, old(s)@).1),
    {
        let (nonce, pid) = s.ask_stamp()?;
        let dirs: Vec<Vec<u8>> = temp_dirs(s)?;
        let ghost n = Naming { prefix: prefix@, ext: ext@, nonce, pid };
        let ghost all = contents(dirs@);
        let ghost whole = attempts(n, all, 0, 0, s@);
        let mut d: usize = 0;
        while d < dirs.len()
            invariant
                d <= dirs@.len(),
                all == contents(dirs@),
                n == (Naming { prefix: prefix@, ext: ext@, nonce, pid }),
                new_temp_spec(prefix@, ext@, old(s)@) == whole,
                whole == attempts(n, all, d as int, 0, s@),
            decreases dirs@.len() - d,
        {
            let mut a: u32 = 0;
            let mut denied: bool = false;
            assert(all[d as int] == dirs@[d as int]@);
            while a < ATTEMPTS && !denied
                invariant
                    a <= ATTEMPTS,
                    d < dirs@.len(),
                    all == contents(dirs@),
                    all[d as int] == dirs@[d as int]@,
                    n == (Naming { prefix: prefix@, ext: ext@, nonce, pid }),
                    new_temp_spec(prefix@, ext@, old(s)@) == whole,
                    !denied ==> whole == attempts(n, all, d as int, a as nat, s@),
                    denied ==> whole == attempts(n, all, d + 1, 0, s@),
                decreases ATTEMPTS - a,
            {
                let serial: u64 = s.serial();
                let name: String = make_name(prefix, pid, nonce, serial, a);
                let dir: Vec<u8> = join_path(
                    dirs[d].as_slice(),
                    bytes_of(name.as_str()).as_slice(),
                );
                assert(dir@ == dir_path(n, all[d as int], serial as nat, a as nat));
                match s.ask_create(copied(&dir))? {
                    Creation::Made => {
                        let file: String = join2("output.", ext);
                        let path: Vec<u8> = join_path(
                            dir.as_slice(),
                            bytes_of(file.as_str()).as_slice(),
                        );
                        return Ok(TempFile { path, dir });
                    },
                    Creation::Exists => {},
                    Creation::Denied => {
                        denied = true;
                    },
                    Creation::Failed(reason) => {
                        let place: String = decode_lossy(dir.as_slice());
                        return Err(
                            Stop::Fail(
                                join4(
                                    "cannot create secure temp directory ",
                                    place.as_str(),
                                    ": ",
                                    reason.as_str(),
                                ),
                            ),
                        );
                    },
                }
                a = a + 1;
            }
            d = d + 1;
        }
        Err(Stop::Fail("could not create a unique secure temp directory".to_owned()))
    }

    /// Where the file is.
    pub fn path(&self) -> (r: &Vec<u8>)
        ensures
            r@ == self@.path,
    {
        &self.path
    }

    /// Has the file and its directory removed.
    pub fn discard(&self, s: &mut Session) -> (r: Result<(), Stop>)
        ensures
            final(s)@ == discard_spec(self@, old(s)@).0,
            agrees(r, discard_spec(self@, old(s)@).1),
    {
        s.ask_discard(copied(&self.path), copied(&self.dir))
    }

    /// Ends the use of the file after a step that came to `r`.
    pub fn release<T: View>(self, r: Result<T, Stop>, s: &mut Session) -> (t: Result<T, Stop>)
        ensures
            final(s)@ == released(self@, (old(s)@, outcome(r))).0,
            agrees(t, released(self@, (old(s)@, outcome(r))).1),
            t is Ok ==> t == r,
    {
        match r {
            Err(Stop::Ask(request)) => Err(Stop::Ask(request)),
            Err(Stop::Mismatch) => Err(Stop::Mismatch),
            _ => {
                self.discard(s)?;
                r
            },
        }
    }

    /// Keeps the file that a step has filled, if the step came to its end.
    pub fn keep(self, r: Result<(), Stop>, s: &mut Session) -> (t: Result<TempFile, Stop>)
        ensures
            final(s)@ == kept(self@, (old(s)@, outcome(r))).0,
            agrees(t, kept(self@, (old(s)@, outcome(r))).1),
    {
        match r {
            Ok(()) => Ok(self),
            Err(Stop::Fail(message)) => {
                self.discard(s)?;
                Err(Stop::Fail(message))
            },
            Err(stop) => Err(stop),
        }
    }
}

} // verus!
