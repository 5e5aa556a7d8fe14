//! What holds of finding and running programs.

use vstd::prelude::*;
use vstd::utf8::encode_utf8;

use crate::host::{contents, put, put_dirs, put_flag, Log, Reply, RequestView, Running, StopView};
use crate::paths::{joined, last_name};
use crate::text::{texts, trimmed};
use crate::tidy::ends_here;
use crate::tools::{bad_exit, first_file, not_run, run_spec, which_spec};
use crate::unicode::utf8_lossy;

verus! {

/// Whether `next` is the conversation `log`, some requests later.
pub open spec fn grows(log: Log, next: Log) -> bool {
    &&& next.replies == log.replies
    &&& log.asked.len() <= next.asked.len()
    &&& log.asked.len() <= log.replies.len() ==> next.asked.len() <= next.replies.len()
    &&& forall|i: int| 0 <= i < log.asked.len() ==> #[trigger] next.asked[i] == log.asked[i]
}

/// The replies are used in their order, one for each request, and a request is
/// waited for when there is none left.
pub proof fn law_replies_come_in_order(log: Log, request: RequestView)
    ensures
        ({
            let (next, r) = put(log, request);
            let n = log.asked.len() as int;
            &&& grows(log, next)
            &&& n < log.replies.len() ==> r == Ok::<Reply, StopView>(log.replies[n])
                && next.asked == log.asked + seq![request]
            &&& n >= log.replies.len() ==> r == Err::<Reply, StopView>(StopView::Ask(request))
                && next == log
        }),
{
    assert(log.asked.push(request) =~= log.asked + seq![request]);
}

/// Whether request `i` asked for the program `name` in `dir`, in vain.
pub open spec fn tried(name: Seq<char>, dir: Seq<u8>, i: int, log: Log) -> bool {
    &&& 0 <= i < log.asked.len()
    &&& log.asked[i] == RequestView::IsFile { path: joined(dir, encode_utf8(name)) }
    &&& log.replies[i] == Reply::Flag(false)
}

/// Whether the program `name` was looked for, from request `from` on, in the first
/// `k` directories of the search path, in vain.
pub open spec fn sought(
    name: Seq<char>,
    dirs: Seq<Vec<u8>>,
    k: int,
    from: int,
    log: Log,
) -> bool {
    &&& 0 <= from < log.asked.len()
    &&& log.asked[from] is SearchPath
    &&& (log.replies[from] matches Reply::Dirs(v) && v@ == dirs)
    &&& 0 <= k <= dirs.len()
    &&& forall|j: int| 0 <= j < k ==> tried(name, (#[trigger] dirs[j])@, from + 1 + j, log)
}

/// Whether requests `from` up to `to` found the program `name` at `path`: in the
/// first directory of the search path that has a file of that name.
pub open spec fn picked(
    name: Seq<char>,
    path: Seq<u8>,
    from: int,
    to: int,
    log: Log,
) -> bool {
    exists|dirs: Seq<Vec<u8>>| #[trigger] picked_in(name, dirs, path, from, to, log)
}

/// Whether requests `from` up to `to` found the program `name` at `path` in `dirs`.
pub open spec fn picked_in(
    name: Seq<char>,
    dirs: Seq<Vec<u8>>,
    path: Seq<u8>,
    from: int,
    to: int,
    log: Log,
) -> bool {
    let k = to - from - 2;
    &&& sought(name, dirs, k, from, log)
    &&& k < dirs.len()
    &&& path == joined(dirs[k]@, encode_utf8(name))
    &&& to <= log.asked.len()
    &&& log.asked[to - 1] == RequestView::IsFile { path }
    &&& log.replies[to - 1] == Reply::Flag(true)
}

/// Whether requests `from` up to `to` looked for the program `name` in each
/// directory of the search path, in vain.
pub open spec fn missed(name: Seq<char>, from: int, to: int, log: Log) -> bool {
    exists|dirs: Seq<Vec<u8>>| #[trigger]
        sought(name, dirs, dirs.len() as int, from, log) && to == from + 1 + dirs.len()
}

/// Whether request `i` had a program run.
pub open spec fn ran(
    program: Seq<u8>,
    args: Seq<Seq<char>>,
    null_stdin: bool,
    capture: bool,
    i: int,
    log: Log,
) -> bool {
    &&& 0 <= i < log.asked.len()
    &&& log.asked[i] == RequestView::Run { program, args, null_stdin, capture }
    &&& log.replies[i] is Ran
}

/// What the run at request `i` came to.
pub open spec fn end_of(i: int, log: Log) -> Running {
    log.replies[i]->Ran_0
}

/// Whether request `i` handed `input` to a program.
pub open spec fn fed(program: Seq<u8>, input: Seq<char>, i: int, log: Log) -> bool {
    &&& 0 <= i < log.asked.len()
    &&& log.asked[i] == RequestView::Pipe { program, input }
    &&& log.replies[i] is Piped
}

/// What a program that ended with success wrote to its standard output, as text.
pub open spec fn said(running: Running) -> Option<Seq<char>> {
    match running {
        Running::Exited { success: true, stdout, .. } => Some(utf8_lossy(stdout@)),
        _ => None,
    }
}

pub(crate) proof fn lemma_sought_grows(
    name: Seq<char>,
    dirs: Seq<Vec<u8>>,
    k: int,
    from: int,
    log: Log,
    next: Log,
)
    requires
        sought(name, dirs, k, from, log),
        grows(log, next),
    ensures
        sought(name, dirs, k, from, next),
{
    assert(next.asked[from] == log.asked[from]);
    assert forall|j: int| 0 <= j < k implies tried(
        name,
        (#[trigger] dirs[j])@,
        from + 1 + j,
        next,
    ) by {
        assert(tried(name, dirs[j]@, from + 1 + j, log));
        assert(next.asked[from + 1 + j] == log.asked[from + 1 + j]);
    }
}

pub(crate) proof fn lemma_picked_grows(
    name: Seq<char>,
    path: Seq<u8>,
    from: int,
    to: int,
    log: Log,
    next: Log,
)
    requires
        picked(name, path, from, to, log),
        grows(log, next),
    ensures
        picked(name, path, from, to, next),
{
    let dirs = choose|dirs: Seq<Vec<u8>>| #[trigger] picked_in(name, dirs, path, from, to, log);
    lemma_sought_grows(name, dirs, to - from - 2, from, log, next);
    assert(next.asked[to - 1] == log.asked[to - 1]);
    assert(picked_in(name, dirs, path, from, to, next));
}

pub(crate) proof fn lemma_missed_grows(
    name: Seq<char>,
    from: int,
    to: int,
    log: Log,
    next: Log,
)
    requires
        missed(name, from, to, log),
        grows(log, next),
    ensures
        missed(name, from, to, next),
{
    let dirs = choose|dirs: Seq<Vec<u8>>| #[trigger]
        sought(name, dirs, dirs.len() as int, from, log) && to == from + 1 + dirs.len();
    lemma_sought_grows(name, dirs, dirs.len() as int, from, log, next);
}

pub(crate) proof fn lemma_grows_on(log: Log, next: Log, last: Log)
    requires
        grows(log, next),
        grows(next, last),
    ensures
        grows(log, last),
{
    assert forall|i: int| 0 <= i < log.asked.len() implies #[trigger] last.asked[i]
        == log.asked[i] by {
        assert(last.asked[i] == next.asked[i]);
    }
}

proof fn lemma_search_from(name: Seq<char>, v: Seq<Vec<u8>>, i: int, from: int, log: Log)
    requires
        0 <= i <= v.len(),
        sought(name, v, i, from, log),
        log.asked.len() == from + 1 + i,
    ensures
        ({
            let (next, r) = first_file(name, contents(v), i, log);
            &&& grows(log, next)
            &&& r matches Ok(path) ==> picked_in(
                name,
                v,
                path,
                from,
                next.asked.len() as int,
                next,
            )
            &&& r matches Err(StopView::Fail(m)) ==> {
                &&& sought(name, v, v.len() as int, from, next)
                &&& next.asked.len() == from + 1 + v.len()
                &&& m == "required tool not found on PATH: "@ + name
            }
        }),
    decreases v.len() - i,
{
    if i < v.len() {
        let path = joined(contents(v)[i], encode_utf8(name));
        assert(contents(v)[i] == v[i]@);
        let (next, r) = put_flag(log, RequestView::IsFile { path });
        if r is Ok {
            assert(grows(log, next));
            lemma_sought_grows(name, v, i, from, log, next);
            if r == Ok::<bool, StopView>(false) {
                assert(tried(name, v[i]@, from + 1 + i, next));
                lemma_search_from(name, v, i + 1, from, next);
                lemma_grows_on(log, next, first_file(name, contents(v), i, log).0);
            }
        }
    }
}

/// A program is found in the first directory of the search path that has a file of
/// that name; it is missing if none has one.
pub proof fn law_search(name: Seq<char>, log: Log)
    ensures
        ({
            let (next, r) = which_spec(name, log);
            let from = log.asked.len() as int;
            let to = next.asked.len() as int;
            &&& grows(log, next)
            &&& r matches Ok(path) ==> picked(name, path, from, to, next)
            &&& r matches Err(StopView::Fail(m)) ==> missed(name, from, to, next) && m
                == "required tool not found on PATH: "@ + name
        }),
{
    let (next, r) = put_dirs(log);
    if r is Ok {
        let n = log.asked.len() as int;
        if let Reply::Dirs(v) = log.replies[n] {
            assert(grows(log, next));
            assert(sought(name, v@, 0, n, next));
            lemma_search_from(name, v@, 0, n, next);
            lemma_grows_on(log, next, which_spec(name, log).0);
            let last = which_spec(name, log).0;
            if let Ok(path) = which_spec(name, log).1 {
                assert(picked_in(name, v@, path, n, last.asked.len() as int, last));
            }
        }
    }
}

/// A program that is run to its end with success gives all that it wrote to its
/// standard output. One that cannot be run, or ends without success, is reported
/// with its reason: by its path in the one case, by its name, its status and what
/// it wrote to its standard error in the other.
pub proof fn law_run(cmd: Seq<u8>, args: Seq<Seq<char>>, log: Log)
    ensures
        ({
            let (next, r) = run_spec(cmd, args, log);
            let n = log.asked.len() as int;
            &&& grows(log, next)
            &&& ends_here(r) ==> {
                &&& next.asked.len() == n + 1
                &&& ran(cmd, args, true, true, n, next)
                &&& match end_of(n, next) {
                    Running::Exited { success, status, stdout, stderr } => {
                        let err = trimmed(utf8_lossy(stderr@));
                        let name = utf8_lossy(last_name(cmd));
                        &&& success ==> r == Ok::<Seq<char>, StopView>(utf8_lossy(stdout@))
                        &&& !success && err.len() > 0 ==> r == Err::<Seq<char>, StopView>(
                            StopView::Fail(name + " exited with "@ + status@ + ": "@ + err),
                        )
                        &&& !success && err.len() == 0 ==> r == Err::<Seq<char>, StopView>(
                            StopView::Fail(
                                name + " exited with "@ + status@ + ": "@ + "no error output"@,
                            ),
                        )
                    },
                    Running::Failed(reason) => r == Err::<Seq<char>, StopView>(
                        StopView::Fail("cannot run "@ + utf8_lossy(cmd) + ": "@ + reason@),
                    ),
                }
            }
        }),
{
}

/// The words for what went wrong with a program.
pub proof fn law_failures(program: Seq<char>, reason: Seq<char>, output: Seq<char>)
    ensures
        not_run(program, reason) == "cannot run "@ + program + ": "@ + reason,
        bad_exit(program, reason, output) == program + " exited with "@ + reason + ": "@ + output,
{
}

/// A list of strings, or of byte strings, is the list of what they hold.
pub proof fn law_lists(strings: Seq<String>, bytes: Seq<Vec<u8>>, i: int)
    ensures
        texts(strings).len() == strings.len(),
        0 <= i < strings.len() ==> texts(strings)[i] == strings[i]@,
        contents(bytes).len() == bytes.len(),
        0 <= i < bytes.len() ==> contents(bytes)[i] == bytes[i]@,
{
}

} // verus!
