//! What holds of the private temporary files.

use vstd::prelude::*;
use vstd::utf8::encode_utf8;

use crate::host::{
    put_create, put_flag, put_place, put_stamp, Creation, Log, Reply, RequestView, StopView,
};
use crate::paths::{joined, same_path};
use crate::tempfile::{
    attempts, kept, new_temp_spec, released, temp_dirs_spec, Naming, TempFileView,
};
use crate::text::decimal;
use crate::tidy::ends_here;
use crate::tool_laws::{grows, lemma_grows_on};
use crate::unicode::utf8_lossy;

verus! {

/// The places for temporary directories are the directory of the login session, if
/// it is one, and `/tmp`, in this order, and `/tmp` only once.
pub proof fn law_places(log: Log)
    ensures
        ({
            let (next, r) = temp_dirs_spec(log);
            let n = log.asked.len() as int;
            let tmp = encode_utf8("/tmp"@);
            &&& grows(log, next)
            &&& !(r matches Err(StopView::Fail(_)))
            &&& r matches Ok(dirs) ==> {
                &&& next.asked[n] is RuntimeDir
                &&& next.replies[n] matches Reply::Place(place)
                &&& match place {
                    Some(dir) => {
                        &&& next.asked.len() == n + 2
                        &&& next.asked[n + 1] == RequestView::IsDir { path: dir@ }
                        &&& next.replies[n + 1] matches Reply::Flag(here)
                        &&& !here ==> dirs == seq![tmp]
                        &&& here && same_path(dir@, tmp) ==> dirs == seq![dir@]
                        &&& here && !same_path(dir@, tmp) ==> dirs == seq![dir@, tmp]
                    },
                    None => next.asked.len() == n + 1 && dirs == seq![tmp],
                }
            }
        }),
{
    let (l1, place) = put_place(log);
    if let Ok(Some(path)) = place {
        let l2 = put_flag(l1, RequestView::IsDir { path }).0;
        assert(grows(log, l2));
    }
}

/// The name of a private directory tells the program, the purpose, the process,
/// the time, the number of the directory and the attempt.
pub open spec fn private_name(
    prefix: Seq<char>,
    pid: u32,
    nonce: u128,
    serial: nat,
    attempt: nat,
) -> Seq<char> {
    "textify-"@ + prefix + "-"@ + decimal(pid as nat) + "-"@ + decimal(nonce as nat) + "-"@
        + decimal(serial) + "-"@ + decimal(attempt)
}

/// Whether request `i` asked for a private directory, and was refused it: the name
/// is taken, or the place cannot be written to.
pub open spec fn refused(i: int, log: Log) -> bool {
    &&& log.asked[i] is CreateDir
    &&& log.replies[i] matches Reply::Created(creation)
    &&& creation is Exists || creation is Denied
}

/// Whether `file` is the file `output.ext` in a private directory that the last
/// request made: under a name for `prefix`, in one of `dirs`, for its owner alone.
/// The requests since `from` were refused.
pub open spec fn made(
    file: TempFileView,
    prefix: Seq<char>,
    ext: Seq<char>,
    pid: u32,
    nonce: u128,
    dirs: Seq<Seq<u8>>,
    from: int,
    log: Log,
) -> bool {
    let last = log.asked.len() - 1;
    &&& from <= last
    &&& log.asked[last] == RequestView::CreateDir { path: file.dir, mode: 0o700 }
    &&& log.replies[last] == Reply::Created(Creation::Made)
    &&& file.path == joined(file.dir, encode_utf8("output."@ + ext))
    &&& forall|i: int| from <= i < last ==> #[trigger] refused(i, log)
    &&& exists|base: Seq<u8>, attempt: nat|
        dirs.contains(base) && attempt < 32 && log.serial > 0 && file.dir == #[trigger] joined(
            base,
            encode_utf8(private_name(prefix, pid, nonce, (log.serial - 1) as nat, attempt)),
        )
}

/// Whether the requests since `from` were refused, and which of them says why no
/// directory could be made: the last, or all of them.
pub open spec fn unmade(message: Seq<char>, from: int, log: Log) -> bool {
    let last = log.asked.len() - 1;
    ||| {
        &&& message == "could not create a unique secure temp directory"@
        &&& forall|i: int| from <= i <= last ==> #[trigger] refused(i, log)
    }
    ||| {
        &&& from <= last
        &&& log.asked[last] matches RequestView::CreateDir { path, .. }
        &&& log.replies[last] matches Reply::Created(Creation::Failed(reason))
        &&& message == "cannot create secure temp directory "@ + utf8_lossy(path) + ": "@ + reason@
        &&& forall|i: int| from <= i < last ==> #[trigger] refused(i, log)
    }
}

proof fn lemma_attempts(
    n: Naming,
    dirs: Seq<Seq<u8>>,
    d: int,
    a: nat,
    from: int,
    log: Log,
)
    requires
        0 <= d,
        0 <= from <= log.asked.len() <= log.replies.len(),
        forall|i: int| from <= i < log.asked.len() ==> #[trigger] refused(i, log),
    ensures
        ({
            let (next, r) = attempts(n, dirs, d, a, log);
            &&& grows(log, next)
            &&& r matches Ok(file) ==> made(
                file,
                n.prefix,
                n.ext,
                n.pid,
                n.nonce,
                dirs,
                from,
                next,
            )
            &&& r matches Err(StopView::Fail(m)) ==> unmade(m, from, next)
        }),
    decreases dirs.len() - d, 32 - a,
{
    if d >= dirs.len() {
    } else if a >= 32 {
        lemma_attempts(n, dirs, d + 1, 0, from, log);
    } else {
        let path = joined(
            dirs[d],
            encode_utf8(private_name(n.prefix, n.pid, n.nonce, log.serial, a)),
        );
        let (next, r) = put_create(log, path);
        let last = attempts(n, dirs, d, a, log).0;
        if r is Ok {
            let k = log.asked.len() as int;
            assert(grows(log, next));
            assert forall|i: int| from <= i < k implies #[trigger] refused(i, next) by {
                assert(refused(i, log));
            }
            match r->Ok_0 {
                Creation::Exists => {
                    assert(refused(k, next));
                    lemma_attempts(n, dirs, d, a + 1, from, next);
                    lemma_grows_on(log, next, last);
                },
                Creation::Denied => {
                    assert(refused(k, next));
                    lemma_attempts(n, dirs, d + 1, 0, from, next);
                    lemma_grows_on(log, next, last);
                },
                Creation::Made => {
                    assert(dirs.contains(dirs[d]));
                    assert((next.serial - 1) as nat == log.serial);
                    let file = crate::tempfile::file_in(n, path);
                    assert(file.dir == joined(
                        dirs[d],
                        encode_utf8(
                            private_name(n.prefix, n.pid, n.nonce, (next.serial - 1) as nat, a),
                        ),
                    ));
                    assert(made(file, n.prefix, n.ext, n.pid, n.nonce, dirs, from, next));
                },
                Creation::Failed(reason) => {
                    assert(next.asked[k] == RequestView::CreateDir { path, mode: 0o700 });
                    assert(unmade(crate::tempfile::not_made(path, reason@), from, next));
                },
            }
        }
    }
}

/// A temporary file stands alone in a new private directory, in one of the places
/// for such directories, which only its owner can enter. Names that are taken and
/// places that cannot be written to are passed over; any other refusal ends the
/// search, and so does the end of the places.
pub proof fn law_temp_file(prefix: Seq<char>, ext: Seq<char>, log: Log)
    requires
        log.asked.len() <= log.replies.len(),
    ensures
        ({
            let (next, r) = new_temp_spec(prefix, ext, log);
            let n = log.asked.len() as int;
            let (l1, stamp) = put_stamp(log);
            let (l2, places) = temp_dirs_spec(l1);
            &&& grows(log, next)
            &&& r matches Ok(file) ==> {
                &&& next.asked[n] is Stamp
                &&& next.replies[n] matches Reply::Stamp { nonce, pid }
                &&& places matches Ok(dirs)
                &&& made(file, prefix, ext, pid, nonce, dirs, l2.asked.len() as int, next)
            }
            &&& r matches Err(StopView::Fail(m)) ==> unmade(m, l2.asked.len() as int, next)
        }),
{
    let (l1, stamp) = put_stamp(log);
    if let Ok((nonce, pid)) = stamp {
        let n = Naming { prefix, ext, nonce, pid };
        law_places(l1);
        let (l2, places) = temp_dirs_spec(l1);
        lemma_grows_on(log, l1, l2);
        if let Ok(dirs) = places {
            lemma_attempts(n, dirs, 0, 0, l2.asked.len() as int, l2);
            lemma_grows_on(log, l2, new_temp_spec(prefix, ext, log).0);
        }
    }
}

/// How the names are tried, at each place from the first attempt to the last of
/// thirty-two: a name that is taken leads to the next attempt at the same place, a
/// place that cannot be written to to the next place.
pub proof fn law_attempts(n: Naming, dirs: Seq<Seq<u8>>, d: int, a: nat, log: Log)
    requires
        0 <= d < dirs.len(),
        log.asked.len() < log.replies.len(),
    ensures
        ({
            let (next, r) = attempts(n, dirs, d, a, log);
            let k = log.asked.len() as int;
            let path = joined(
                dirs[d],
                encode_utf8(private_name(n.prefix, n.pid, n.nonce, log.serial, a)),
            );
            let request = RequestView::CreateDir { path, mode: 0o700 };
            let later = Log {
                replies: log.replies,
                asked: log.asked + seq![request],
                serial: log.serial + 1,
            };
            &&& a < 32 ==> next.asked.len() > k && next.asked[k] == request
            &&& a < 32 && log.replies[k] == Reply::Created(Creation::Exists) ==> (next, r)
                == attempts(n, dirs, d, a + 1, later)
            &&& a < 32 && log.replies[k] == Reply::Created(Creation::Denied) ==> (next, r)
                == attempts(n, dirs, d + 1, 0, later)
            &&& a == 32 ==> (next, r) == attempts(n, dirs, d + 1, 0, log)
            &&& attempts(n, dirs, dirs.len() as int, a, log) == (
                log,
                Err::<TempFileView, StopView>(
                    StopView::Fail("could not create a unique secure temp directory"@),
                ),
            )
        }),
{
    let path = joined(
        dirs[d],
        encode_utf8(private_name(n.prefix, n.pid, n.nonce, log.serial, a)),
    );
    let request = RequestView::CreateDir { path, mode: 0o700 };
    assert(log.asked.push(request) =~= log.asked + seq![request]);
    if a < 32 {
        let k = log.asked.len() as int;
        let next = put_create(log, path).0;
        lemma_attempts_grow(n, dirs, d, a + 1, next);
        lemma_attempts_grow(n, dirs, d + 1, 0, next);
        assert(next.asked[k] == request);
    }
}

pub(crate) proof fn lemma_attempts_grow(n: Naming, dirs: Seq<Seq<u8>>, d: int, a: nat, log: Log)
    ensures
        grows(log, attempts(n, dirs, d, a, log).0),
        ({
            let next = attempts(n, dirs, d, a, log).0;
            forall|i: int|
                log.asked.len() <= i < next.asked.len() ==> #[trigger] next.asked[i] is CreateDir
        }),
    decreases dirs.len() - d, 32 - a,
{
    if d < 0 || d >= dirs.len() {
    } else if a >= 32 {
        lemma_attempts_grow(n, dirs, d + 1, 0, log);
    } else {
        let path = crate::tempfile::dir_path(n, dirs[d], log.serial, a);
        let (next, r) = put_create(log, path);
        let last = attempts(n, dirs, d, a, log).0;
        if r == Ok::<Creation, StopView>(Creation::Exists) {
            lemma_attempts_grow(n, dirs, d, a + 1, next);
            lemma_grows_on(log, next, last);
        } else if r == Ok::<Creation, StopView>(Creation::Denied) {
            lemma_attempts_grow(n, dirs, d + 1, 0, next);
            lemma_grows_on(log, next, last);
        }
    }
}

/// A file is removed with its directory when its use has come to its end, whether
/// that went well or not, and the outcome stays what it was.
pub proof fn law_release<T>(file: TempFileView, log: Log, r: Result<T, StopView>)
    ensures
        ({
            let (next, t) = released(file, (log, r));
            let n = log.asked.len() as int;
            &&& grows(log, next)
            &&& ends_here(t) ==> {
                &&& t == r
                &&& next.asked.len() == n + 1
                &&& next.asked[n] == RequestView::Discard { path: file.path, dir: file.dir }
                &&& next.replies[n] is Discarded
            }
        }),
{
}

/// A file that a step was to fill is kept if the step came to its end, and removed
/// with its directory if it failed.
pub proof fn law_keep(file: TempFileView, log: Log, r: Result<(), StopView>)
    ensures
        ({
            let (next, t) = kept(file, (log, r));
            let n = log.asked.len() as int;
            &&& grows(log, next)
            &&& r is Ok ==> (next, t) == (log, Ok::<TempFileView, StopView>(file))
            &&& t is Ok ==> r is Ok
            &&& t matches Err(StopView::Fail(m)) ==> {
                &&& r == Err::<(), StopView>(StopView::Fail(m))
                &&& next.asked.len() == n + 1
                &&& next.asked[n] == RequestView::Discard { path: file.path, dir: file.dir }
                &&& next.replies[n] is Discarded
            }
        }),
{
}

} // verus!
