//! What a conversation asks of the machine, and how it goes on.
//!
//! Every request that the program puts is of one of a few fixed forms. This
//! module says which. It also says what it means that a conversation goes on
//! from where it was when one more reply comes in.

use vstd::prelude::*;
use vstd::utf8::encode_utf8;

use crate::engine::{magick_args, read_args};
use crate::host::{put, Creation, Log, Reply, RequestView, Step, StopView, PRIVATE_MODE};
use crate::paths::joined;
use crate::tempfile::{dir_path, fallback_dir, Naming, ATTEMPTS};

verus! {

/// The requests of a conversation, each with its reply.
pub type Past = Seq<(RequestView, Reply)>;

/// The requests of a conversation, each with its reply.
pub open spec fn past(log: Log) -> Past {
    Seq::new(log.asked.len(), |i: int| (log.asked[i], log.replies[i]))
}

/// How many directories were asked for.
pub open spec fn creates(p: Past) -> nat
    decreases p.len(),
{
    if p.len() == 0 {
        0
    } else {
        creates(p.drop_last()) + if p.last().0 is CreateDir {
            1nat
        } else {
            0nat
        }
    }
}

/// The private directories that were made and have not been removed.
pub open spec fn live(p: Past) -> Set<Seq<u8>>
    decreases p.len(),
{
    if p.len() == 0 {
        Set::empty()
    } else {
        let before = live(p.drop_last());
        match p.last() {
            (RequestView::CreateDir { path, .. }, Reply::Created(Creation::Made)) => before.insert(
                path,
            ),
            (RequestView::Discard { dir, .. }, _) => before.remove(dir),
            _ => before,
        }
    }
}

/// Whether a conversation is one: each request has its reply, and the
/// directories were counted.
pub open spec fn sound(log: Log) -> bool {
    &&& log.asked.len() <= log.replies.len()
    &&& log.serial == creates(past(log))
}

/// Whether the machine answered that `path` is a file.
pub open spec fn seen_file(path: Seq<u8>, p: Past) -> bool {
    p.contains((RequestView::IsFile { path }, Reply::Flag(true)))
}

/// Whether the machine answered that `path` is a directory.
pub open spec fn seen_dir(path: Seq<u8>, p: Past) -> bool {
    p.contains((RequestView::IsDir { path }, Reply::Flag(true)))
}

/// Whether `dir` is one of the directories that are searched for programs.
pub open spec fn on_path(dir: Seq<u8>, p: Past) -> bool {
    exists|i: int, j: int|
        #![trigger p[i], on_path_at(dir, p, i, j)]
        on_path_at(dir, p, i, j)
}

/// Whether the answer `i` names `dir` as the directory `j` to search.
pub open spec fn on_path_at(dir: Seq<u8>, p: Past, i: int, j: int) -> bool {
    &&& 0 <= i < p.len()
    &&& p[i].0 is SearchPath
    &&& p[i].1 matches Reply::Dirs(dirs) && 0 <= j < dirs@.len() && dirs@[j]@ == dir
}

/// Whether `program` was found under that name: a file in a directory that is
/// searched for programs.
pub open spec fn found(program: Seq<u8>, name: Seq<char>, p: Past) -> bool {
    &&& seen_file(program, p)
    &&& exists|dir: Seq<u8>|
        on_path(dir, p) && program == #[trigger] joined(dir, encode_utf8(name))
}

/// The arguments with which grim captures a region.
pub open spec fn region_args(region: Seq<char>, target: Seq<char>) -> Seq<Seq<char>> {
    seq!["-g"@, region, target]
}

/// The arguments with which grim captures the whole screen.
pub open spec fn screen_args(target: Seq<char>) -> Seq<Seq<char>> {
    seq![target]
}

/// The arguments with which identify tells the size of an image.
pub open spec fn size_args(path: Seq<char>) -> Seq<Seq<char>> {
    seq!["-format"@, "%wx%h"@, path]
}

/// Whether a program and its arguments are a command that may be run. What comes
/// from the user or from another program stands in an argument of its own, in a
/// fixed place.
pub open spec fn known_command(program: Seq<u8>, args: Seq<Seq<char>>, p: Past) -> bool {
    ||| program == encode_utf8("hyprctl"@) && args == seq!["getoption"@, "input:kb_layout"@]
    ||| program == encode_utf8("fcitx5-remote"@) && args == seq!["-n"@]
    ||| found(program, "tesseract"@, p) && args == seq!["--list-langs"@]
    ||| found(program, "tesseract"@, p) && exists|path: Seq<char>, lang: Seq<char>|
        args == #[trigger] read_args(path, lang)
    ||| found(program, "tesseract"@, p) && exists|path: Seq<char>, lang: Seq<char>|
        args == (#[trigger] read_args(path, lang)).push("tsv"@)
    ||| found(program, "slurp"@, p) && args == Seq::<Seq<char>>::empty()
    ||| found(program, "grim"@, p) && exists|region: Seq<char>, target: Seq<char>|
        args == #[trigger] region_args(region, target)
    ||| found(program, "grim"@, p) && exists|target: Seq<char>|
        args == #[trigger] screen_args(target)
    ||| found(program, "identify"@, p) && exists|path: Seq<char>| args == #[trigger] size_args(path)
    ||| found(program, "magick"@, p) && exists|src: Seq<char>, w: u32, h: u32, target: Seq<char>|
        args == #[trigger] magick_args(src, w, h, target)
}

/// Whether a word names the purpose of a temporary file.
pub open spec fn is_purpose(prefix: Seq<char>) -> bool {
    prefix == "region"@ || prefix == "full"@ || prefix == "proc"@
}

/// Whether temporary directories may be made in `base`: it is `/tmp`, or the
/// directory of the login session.
pub open spec fn is_base(base: Seq<u8>, p: Past) -> bool {
    base == fallback_dir() || (seen_dir(base, p) && exists|i: int|
        #[trigger] is_place_at(base, p, i))
}

/// Whether the answer `i` names `base` as the directory of the login session.
pub open spec fn is_place_at(base: Seq<u8>, p: Past, i: int) -> bool {
    &&& 0 <= i < p.len()
    &&& p[i].0 is RuntimeDir
    &&& p[i].1 matches Reply::Place(Some(path)) && path@ == base
}

/// Whether `path` is the name of a new private directory, in a place for
/// temporary files, with the number of the directories before it in its name.
pub open spec fn is_private_dir(path: Seq<u8>, p: Past) -> bool {
    exists|n: Naming, base: Seq<u8>, attempt: nat|
        is_purpose(n.prefix) && is_base(base, p) && attempt < ATTEMPTS && path
            == #[trigger] dir_path(n, base, creates(p), attempt)
}

/// Whether a request may be put after `p`.
pub open spec fn permitted(request: RequestView, p: Past) -> bool {
    match request {
        RequestView::Run { program, args, .. } => known_command(program, args, p),
        RequestView::Pipe { program, .. } => found(program, "wl-copy"@, p),
        RequestView::CreateDir { path, mode } => mode == PRIVATE_MODE && is_private_dir(path, p),
        _ => true,
    }
}

/// Whether a request neither makes nor removes a directory.
pub open spec fn is_calm(request: RequestView) -> bool {
    !(request is CreateDir) && !(request is Discard)
}

/// Whether a request is permitted, and calm where that is asked for.
pub open spec fn proper(request: RequestView, p: Past, calm: bool) -> bool {
    permitted(request, p) && (calm ==> is_calm(request))
}

/// The request that an outcome waits for.
pub open spec fn pending<T>(r: Result<T, StopView>) -> Option<RequestView> {
    match r {
        Err(StopView::Ask(request)) => Some(request),
        _ => None,
    }
}

/// Whether a conversation went on from `log` to `next` with proper requests
/// only, and stops for `waits` only when all the replies were used.
#[verifier::opaque]
pub open spec fn goes(log: Log, next: Log, waits: Option<RequestView>, calm: bool) -> bool {
    &&& sound(next)
    &&& next.replies == log.replies
    &&& log.asked.len() <= next.asked.len()
    &&& next.asked.take(log.asked.len() as int) == log.asked
    &&& forall|i: int|
        log.asked.len() <= i < next.asked.len() ==> proper(
            #[trigger] next.asked[i],
            past(next).take(i),
            calm,
        )
    &&& waits matches Some(request) ==> {
        &&& next.asked.len() == next.replies.len()
        &&& proper(request, past(next), calm)
    }
}

/// Whether a reply is of the kind that the request asks for.
pub open spec fn fits(request: RequestView, reply: Reply) -> bool {
    match request {
        RequestView::SearchPath => reply is Dirs,
        RequestView::IsFile { .. } => reply is Flag,
        RequestView::IsDir { .. } => reply is Flag,
        RequestView::RuntimeDir => reply is Place,
        RequestView::Stamp => reply is Stamp,
        RequestView::CreateDir { .. } => reply is Created,
        RequestView::Discard { .. } => reply is Discarded,
        RequestView::Run { .. } => reply is Ran,
        RequestView::Pipe { .. } => reply is Piped,
        RequestView::ReadInput => reply is Input,
    }
}

/// Whether one of the requests between `log` and `next` got a reply of another kind.
pub open spec fn misfit(log: Log, next: Log) -> bool {
    exists|i: int|
        log.asked.len() <= i < next.asked.len() && !(#[trigger] fits(
            next.asked[i],
            next.replies[i],
        ))
}

/// Whether a step from `log` ends in a mismatch only where a reply did not fit.
pub open spec fn blames<T>(log: Log, s: Step<T>) -> bool {
    s.1 == Err::<T, StopView>(StopView::Mismatch) ==> misfit(log, s.0)
}

/// The same conversation with one more reply at hand.
pub open spec fn more(log: Log, x: Reply) -> Log {
    Log { replies: log.replies.push(x), ..log }
}

/// Whether `t` is what becomes of the step `s` when one more reply is at hand:
/// a step that came to its end stays as it is, and one that waited for a reply
/// has put the same requests, then the one that it waited for.
pub open spec fn resumes<T>(s: Step<T>, t: Step<T>, x: Reply) -> bool {
    match s.1 {
        Err(StopView::Ask(request)) => {
            let n = s.0.asked.len() as int;
            n < t.0.asked.len() && t.0.asked.take(n + 1) == s.0.asked.push(request)
        },
        _ => t == (more(s.0, x), s.1),
    }
}

/// Whether a step from `log` puts proper requests only, with and without one
/// more reply `x`, and goes on when the reply comes in. It ends in a mismatch
/// only where a reply did not fit.
#[verifier::opaque]
pub open spec fn regular<T>(log: Log, x: Reply, s: Step<T>, t: Step<T>, calm: bool) -> bool {
    &&& goes(log, s.0, pending(s.1), calm)
    &&& goes(more(log, x), t.0, pending(t.1), calm)
    &&& resumes(s, t, x)
    &&& blames(log, s)
    &&& blames(more(log, x), t)
}

/// Whether the outcome `s` ends what `s1` began, without a further request.
pub open spec fn ends<A, B>(s1: Step<A>, s: Step<B>) -> bool {
    s.0 == s1.0 && match s1.1 {
        Ok(_) => pending(s.1) is None,
        Err(stop) => s.1 == Err::<B, StopView>(stop),
    }
}

/// Whether the outcome `s` is `s1` itself, where `s1` did not come to a result.
pub open spec fn breaks<A, B>(s1: Step<A>, s: Step<B>) -> bool {
    s1.1 matches Err(stop) ==> s == (s1.0, Err::<B, StopView>(stop))
}

pub(crate) proof fn lemma_past_more(log: Log, x: Reply)
    requires
        log.asked.len() <= log.replies.len(),
    ensures
        past(more(log, x)) == past(log),
{
    assert(past(more(log, x)) =~= past(log));
}

pub(crate) proof fn lemma_sound_more(log: Log, x: Reply)
    requires
        sound(log),
    ensures
        sound(more(log, x)),
{
    lemma_past_more(log, x);
}

proof fn lemma_stay(log: Log, calm: bool)
    requires
        sound(log),
    ensures
        goes(log, log, None, calm),
{
    reveal(goes);
    assert(log.asked.take(log.asked.len() as int) =~= log.asked);
}

proof fn lemma_chain(log: Log, mid: Log, next: Log, waits: Option<RequestView>, calm: bool)
    requires
        goes(log, mid, None, calm),
        goes(mid, next, waits, calm),
    ensures
        goes(log, next, waits, calm),
{
    reveal(goes);
    let n = log.asked.len() as int;
    let m = mid.asked.len() as int;
    assert(next.asked.take(n) =~= next.asked.take(m).take(n));
    assert forall|i: int| n <= i < next.asked.len() implies proper(
        #[trigger] next.asked[i],
        past(next).take(i),
        calm,
    ) by {
        if i < m {
            assert(next.asked[i] == next.asked.take(m)[i]);
            assert forall|j: int| 0 <= j < i implies past(next).take(i)[j] == #[trigger] past(
                mid,
            ).take(i)[j] by {
                assert(next.asked[j] == next.asked.take(m)[j]);
            }
            assert(past(next).take(i) =~= past(mid).take(i));
        }
    }
}

/// The past of a conversation is a beginning of what comes later.
pub(crate) proof fn lemma_past_grows(
    log: Log,
    next: Log,
    waits: Option<RequestView>,
    calm: bool,
)
    requires
        goes(log, next, waits, calm),
    ensures
        past(log).len() <= past(next).len(),
        past(next).take(past(log).len() as int) == past(log),
{
    reveal(goes);
    let n = log.asked.len() as int;
    assert forall|j: int| 0 <= j < n implies past(next).take(n)[j] == #[trigger] past(log)[j] by {
        assert(next.asked[j] == next.asked.take(n)[j]);
    }
    assert(past(next).take(n) =~= past(log));
}

proof fn lemma_contains_grows(e: (RequestView, Reply), p: Past, q: Past)
    requires
        p.contains(e),
        p.len() <= q.len(),
        q.take(p.len() as int) == p,
    ensures
        q.contains(e),
{
    let i = choose|i: int| 0 <= i < p.len() && p[i] == e;
    assert(q[i] == q.take(p.len() as int)[i]);
}

pub(crate) proof fn lemma_on_path_grows(dir: Seq<u8>, p: Past, q: Past)
    requires
        on_path(dir, p),
        p.len() <= q.len(),
        q.take(p.len() as int) == p,
    ensures
        on_path(dir, q),
{
    let (i, j) = choose|i: int, j: int|
        #![trigger p[i], on_path_at(dir, p, i, j)]
        on_path_at(dir, p, i, j);
    assert(q[i] == q.take(p.len() as int)[i]);
    assert(on_path_at(dir, q, i, j));
}

/// What was found stays found.
pub(crate) proof fn lemma_found_grows(program: Seq<u8>, name: Seq<char>, p: Past, q: Past)
    requires
        found(program, name, p),
        p.len() <= q.len(),
        q.take(p.len() as int) == p,
    ensures
        found(program, name, q),
{
    lemma_contains_grows((RequestView::IsFile { path: program }, Reply::Flag(true)), p, q);
    let dir = choose|dir: Seq<u8>|
        on_path(dir, p) && program == #[trigger] joined(dir, encode_utf8(name));
    lemma_on_path_grows(dir, p, q);
}

/// A place for temporary directories stays one.
proof fn lemma_base_grows(base: Seq<u8>, p: Past, q: Past)
    requires
        is_base(base, p),
        p.len() <= q.len(),
        q.take(p.len() as int) == p,
    ensures
        is_base(base, q),
{
    if base != fallback_dir() {
        lemma_contains_grows((RequestView::IsDir { path: base }, Reply::Flag(true)), p, q);
        let i = choose|i: int| #[trigger] is_place_at(base, p, i);
        assert(q[i] == q.take(p.len() as int)[i]);
        assert(is_place_at(base, q, i));
    }
}

pub(crate) proof fn lemma_bases_grow(dirs: Seq<Seq<u8>>, p: Past, q: Past)
    requires
        forall|j: int| 0 <= j < dirs.len() ==> is_base(#[trigger] dirs[j], p),
        p.len() <= q.len(),
        q.take(p.len() as int) == p,
    ensures
        forall|j: int| 0 <= j < dirs.len() ==> is_base(#[trigger] dirs[j], q),
{
    assert forall|j: int| 0 <= j < dirs.len() implies is_base(#[trigger] dirs[j], q) by {
        lemma_base_grows(dirs[j], p, q);
    }
}

pub(crate) proof fn lemma_regular_sound<T>(log: Log, x: Reply, s: Step<T>, t: Step<T>, calm: bool)
    requires
        regular(log, x, s, t, calm),
    ensures
        sound(s.0),
        sound(t.0),
        past(log).len() <= past(s.0).len(),
        past(s.0).take(past(log).len() as int) == past(log),
        past(more(log, x)).len() <= past(t.0).len(),
        past(t.0).take(past(more(log, x)).len() as int) == past(more(log, x)),
        !(s.1 matches Err(StopView::Ask(_))) ==> t == (more(s.0, x), s.1),
        calm ==> regular(log, x, s, t, false),
{
    reveal(regular);
    lemma_past_grows(log, s.0, pending(s.1), calm);
    lemma_past_grows(more(log, x), t.0, pending(t.1), calm);
    reveal(goes);
}

/// Putting one request.
pub(crate) proof fn lemma_put(log: Log, request: RequestView, x: Reply, calm: bool)
    requires
        sound(log),
        proper(request, past(log), calm),
    ensures
        regular(log, x, put(log, request), put(more(log, x), request), calm),
        past(put(log, request).0) == (match put(log, request).1 {
            Ok(reply) => past(log).push((request, reply)),
            Err(_) => past(log),
        }),
        put(log, request).1 matches Ok(reply) ==> fits(request, reply) || misfit(
            log,
            put(log, request).0,
        ),
        put(more(log, x), request).1 matches Ok(reply) ==> fits(request, reply) || misfit(
            more(log, x),
            put(more(log, x), request).0,
        ),
{
    reveal(regular);
    lemma_past_more(log, x);
    lemma_put_goes(log, request, calm);
    lemma_put_goes(more(log, x), request, calm);
    let s = put(log, request);
    let t = put(more(log, x), request);
    if log.asked.len() == log.replies.len() {
        assert(t.0.asked.take(log.asked.len() as int + 1) =~= log.asked.push(request));
    }
    let n = log.asked.len() as int;
    if s.1 is Ok {
        assert(past(s.0) =~= past(log).push((request, s.1->Ok_0)));
        assert(fits(s.0.asked[n], s.0.replies[n]) == fits(request, s.1->Ok_0));
    }
    assert(fits(t.0.asked[n], t.0.replies[n]) == fits(request, t.1->Ok_0));
}

proof fn lemma_put_goes(log: Log, request: RequestView, calm: bool)
    requires
        sound(log),
        proper(request, past(log), calm),
    ensures
        goes(log, put(log, request).0, pending(put(log, request).1), calm),
{
    reveal(goes);
    let next = put(log, request).0;
    if log.asked.len() < log.replies.len() {
        assert(past(next).drop_last() =~= past(log));
        assert(past(next).take(log.asked.len() as int) =~= past(log));
        assert(next.asked.take(log.asked.len() as int) =~= log.asked);
    } else {
        assert(log.asked.take(log.asked.len() as int) =~= log.asked);
    }
}

/// Ending without a request.
pub(crate) proof fn lemma_still<T>(log: Log, x: Reply, r: Result<T, StopView>, calm: bool)
    requires
        sound(log),
        pending(r) is None,
        r != Err::<T, StopView>(StopView::Mismatch),
    ensures
        regular(log, x, (log, r), (more(log, x), r), calm),
{
    reveal(regular);
    lemma_sound_more(log, x);
    lemma_stay(log, calm);
    lemma_stay(more(log, x), calm);
}

/// Ending what a step began, without a further request.
pub(crate) proof fn lemma_finish<A, B>(
    log: Log,
    x: Reply,
    s1: Step<A>,
    t1: Step<A>,
    s: Step<B>,
    t: Step<B>,
    calm: bool,
)
    requires
        regular(log, x, s1, t1, calm),
        ends(s1, s),
        ends(t1, t),
        s1.1 is Ok ==> blames(log, s),
        t1.1 is Ok ==> blames(more(log, x), t),
        t1.1 == s1.1 ==> t.1 == s.1,
    ensures
        regular(log, x, s, t, calm),
{
    reveal(regular);
}

/// Going on from a step that came to a result.
pub(crate) proof fn lemma_glue<A, B>(
    log: Log,
    x: Reply,
    s1: Step<A>,
    t1: Step<A>,
    s: Step<B>,
    t: Step<B>,
    calm: bool,
)
    requires
        regular(log, x, s1, t1, calm),
        breaks(s1, s),
        breaks(t1, t),
        s1.1 is Ok ==> regular(s1.0, x, s, t, calm),
        s1.1 is Err && t1.1 is Ok ==> exists|u: Step<B>| #[trigger] regular(t1.0, x, t, u, calm),
    ensures
        regular(log, x, s, t, calm),
{
    reveal(regular);
    assert(log.asked.len() <= s1.0.asked.len() && more(log, x).asked.len() <= t1.0.asked.len()) by {
        reveal(goes);
    }
    if s1.1 is Ok {
        lemma_chain(log, s1.0, s.0, pending(s.1), calm);
        lemma_chain(more(log, x), t1.0, t.0, pending(t.1), calm);
    } else if t1.1 is Ok {
        lemma_chain(more(log, x), t1.0, t.0, pending(t.1), calm);
        if s1.1 matches Err(StopView::Ask(_)) {
            reveal(goes);
            let n = s1.0.asked.len() as int;
            assert(t.0.asked.take(n + 1) =~= t.0.asked.take(t1.0.asked.len() as int).take(n + 1));
        }
    }
}

} // verus!
