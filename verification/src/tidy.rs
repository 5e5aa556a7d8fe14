//! How each command cleans up: the proof that no private directory is left behind.

use vstd::prelude::*;

use crate::cli::{cmd_copy_spec, cmd_lang_spec, cmd_langs_spec, copy_input, dispatch_spec};
use crate::engine::{
    capture_full_spec, capture_region_spec, capture_spec, prepare_spec, preprocess_spec,
    read_capture_spec, read_file_spec, read_spec, run_ocr_spec, shoot_full_spec, shoot_region_spec,
};
use crate::host::{
    put, put_create, put_stamp, tolerated, Creation, Log, Reply, RequestView, Step, StopView,
    PRIVATE_MODE,
};
use crate::lang::resolve_lang_spec;
use crate::options::{parsed, OptionsView};
use crate::tempfile::{
    attempts, dir_path, discard_spec, kept, new_temp_spec, released, temp_dirs_spec, Naming,
    TempFileView, ATTEMPTS,
};
use crate::tools::which_spec;
use crate::trace::{
    goes, is_calm, lemma_found_grows, lemma_regular_sound, live, more, past, proper, regular,
    sound, Past,
};
use crate::unicode::utf8_lossy;
use crate::walk::{
    lemma_capture, lemma_cmd_lang, lemma_cmd_langs, lemma_copy_input, lemma_discard,
    lemma_new_temp, lemma_prepare, lemma_preprocess, lemma_read, lemma_read_file,
    lemma_resolve_lang, lemma_shoot_full, lemma_shoot_region, lemma_stamp, lemma_temp_dirs,
    lemma_which,
};

verus! {

/// Whether a step that has come to its end leaves no directories but those of `dirs`.
pub open spec fn tidy<T>(dirs: Set<Seq<u8>>, s: Step<T>) -> bool {
    ends_here(s.1) ==> live(past(s.0)).subset_of(dirs)
}

/// Whether an outcome is a result or a failure.
pub open spec fn ends_here<T>(r: Result<T, StopView>) -> bool {
    r is Ok || r matches Err(StopView::Fail(_))
}

/// Whether a step that makes a temporary file leaves no directories but those
/// of `dirs` and the one of the file.
pub open spec fn holds(dirs: Set<Seq<u8>>, s: Step<TempFileView>) -> bool {
    match s.1 {
        Ok(file) => live(past(s.0)).subset_of(dirs.insert(file.dir)),
        Err(StopView::Fail(_)) => live(past(s.0)).subset_of(dirs),
        Err(_) => true,
    }
}

proof fn lemma_live_prefix(p: Past, q: Past)
    requires
        p.len() <= q.len(),
        q.take(p.len() as int) == p,
        forall|i: int| p.len() <= i < q.len() ==> is_calm((#[trigger] q[i]).0),
    ensures
        live(q) == live(p),
    decreases q.len(),
{
    if q.len() == p.len() {
        assert(q =~= p);
    } else {
        let r = q.drop_last();
        assert(r.take(p.len() as int) =~= p);
        assert forall|i: int| p.len() <= i < r.len() implies is_calm((#[trigger] r[i]).0) by {
            assert(r[i] == q[i]);
        }
        lemma_live_prefix(p, r);
        assert(is_calm(q[q.len() - 1].0));
    }
}

/// A calm step makes and removes no directory.
proof fn lemma_live_calm<T>(log: Log, x: Reply, s: Step<T>, t: Step<T>)
    requires
        regular(log, x, s, t, true),
    ensures
        live(past(s.0)) == live(past(log)),
        sound(s.0),
        past(log).len() <= past(s.0).len(),
        past(s.0).take(past(log).len() as int) == past(log),
{
    lemma_regular_sound(log, x, s, t, true);
    reveal(regular);
    reveal(goes);
    let p = past(log);
    let q = past(s.0);
    assert forall|i: int| p.len() <= i < q.len() implies is_calm((#[trigger] q[i]).0) by {
        assert(proper(s.0.asked[i], past(s.0).take(i), true));
    }
    lemma_live_prefix(p, q);
}

proof fn lemma_live_put(log: Log, request: RequestView)
    requires
        log.asked.len() <= log.replies.len(),
    ensures
        put(log, request).1 matches Ok(reply) ==> past(put(log, request).0) == past(log).push(
            (request, reply),
        ),
        put(log, request).1 is Ok ==> past(put(log, request).0).drop_last() == past(log),
{
    if let Ok(reply) = put(log, request).1 {
        assert(past(put(log, request).0) =~= past(log).push((request, reply)));
        assert(past(put(log, request).0).drop_last() =~= past(log));
    }
}

proof fn lemma_tidy_attempts(
    n: Naming,
    dirs: Seq<Seq<u8>>,
    d: int,
    a: nat,
    log: Log,
)
    requires
        log.asked.len() <= log.replies.len(),
    ensures
        holds(live(past(log)), attempts(n, dirs, d, a, log)),
    decreases dirs.len() - d, ATTEMPTS - a,
{
    if d < 0 || d >= dirs.len() {
    } else if a >= ATTEMPTS {
        lemma_tidy_attempts(n, dirs, d + 1, 0, log);
    } else {
        let dir = dir_path(n, dirs[d], log.serial, a);
        let request = RequestView::CreateDir { path: dir, mode: PRIVATE_MODE };
        lemma_live_put(log, request);
        let next = put(log, request).0;
        match put_create(log, dir).1 {
            Ok(Creation::Exists) => {
                assert(live(past(next)) == live(past(log)));
                lemma_tidy_attempts(n, dirs, d, a + 1, next);
            },
            Ok(Creation::Denied) => {
                assert(live(past(next)) == live(past(log)));
                lemma_tidy_attempts(n, dirs, d + 1, 0, next);
            },
            _ => {},
        }
    }
}

proof fn lemma_tidy_new(prefix: Seq<char>, ext: Seq<char>, log: Log)
    requires
        sound(log),
    ensures
        holds(live(past(log)), new_temp_spec(prefix, ext, log)),
{
    let x = Reply::Discarded;
    lemma_stamp(log, x);
    let s1 = put_stamp(log);
    lemma_live_calm(log, x, s1, put_stamp(more(log, x)));
    if let Ok((nonce, pid)) = s1.1 {
        lemma_temp_dirs(s1.0, x);
        let s2 = temp_dirs_spec(s1.0);
        lemma_live_calm(s1.0, x, s2, temp_dirs_spec(more(s1.0, x)));
        if let Ok(dirs) = s2.1 {
            lemma_tidy_attempts(Naming { prefix, ext, nonce, pid }, dirs, 0, 0, s2.0);
        }
    }
}

proof fn lemma_tidy_discard(file: TempFileView, log: Log)
    requires
        sound(log),
    ensures
        discard_spec(file, log).1 is Ok ==> live(past(discard_spec(file, log).0)) == live(
            past(log),
        ).remove(file.dir),
        !(discard_spec(file, log).1 matches Err(StopView::Fail(_))),
{
    lemma_live_put(log, RequestView::Discard { path: file.path, dir: file.dir });
}

proof fn lemma_tidy_kept(dirs: Set<Seq<u8>>, file: TempFileView, s: Step<()>)
    requires
        sound(s.0),
        live(past(s.0)).subset_of(dirs.insert(file.dir)),
    ensures
        holds(dirs, kept(file, s)),
{
    lemma_tidy_discard(file, s.0);
}

proof fn lemma_tidy_released<T>(dirs: Set<Seq<u8>>, file: TempFileView, s: Step<T>)
    requires
        sound(s.0),
        tidy(dirs.insert(file.dir), s),
    ensures
        tidy(dirs, released(file, s)),
{
    lemma_tidy_discard(file, s.0);
}

proof fn lemma_tidy_capture(region: bool, log: Log)
    requires
        sound(log),
    ensures
        holds(live(past(log)), capture_spec(region, log)),
{
    if region {
        lemma_tidy_region(log);
    } else {
        lemma_tidy_full(log);
    }
}

proof fn lemma_tidy_region(log: Log)
    requires
        sound(log),
    ensures
        holds(live(past(log)), capture_region_spec(log)),
{
    let x = Reply::Discarded;
    let dirs = live(past(log));
    let s1 = which_spec("slurp"@, log);
    lemma_which("slurp"@, log, x);
    lemma_live_calm(log, x, s1, which_spec("slurp"@, more(log, x)));
    if let Ok(slurp) = s1.1 {
        let s2 = which_spec("grim"@, s1.0);
        lemma_which("grim"@, s1.0, x);
        lemma_live_calm(s1.0, x, s2, which_spec("grim"@, more(s1.0, x)));
        lemma_found_grows(slurp, "slurp"@, past(s1.0), past(s2.0));
        if let Ok(grim) = s2.1 {
            let s3 = new_temp_spec("region"@, "png"@, s2.0);
            lemma_tidy_new("region"@, "png"@, s2.0);
            lemma_new_temp("region"@, "png"@, s2.0, x);
            lemma_regular_sound(
                s2.0,
                x,
                s3,
                new_temp_spec("region"@, "png"@, more(s2.0, x)),
                false,
            );
            lemma_found_grows(slurp, "slurp"@, past(s2.0), past(s3.0));
            lemma_found_grows(grim, "grim"@, past(s2.0), past(s3.0));
            if let Ok(png) = s3.1 {
                let s4 = shoot_region_spec(slurp, grim, png, s3.0);
                lemma_shoot_region(slurp, grim, png, s3.0, x);
                lemma_live_calm(
                    s3.0,
                    x,
                    s4,
                    shoot_region_spec(slurp, grim, png, more(s3.0, x)),
                );
                lemma_tidy_kept(dirs, png, s4);
            }
        }
    }
}

proof fn lemma_tidy_full(log: Log)
    requires
        sound(log),
    ensures
        holds(live(past(log)), capture_full_spec(log)),
{
    let x = Reply::Discarded;
    let dirs = live(past(log));
    let s1 = which_spec("grim"@, log);
    lemma_which("grim"@, log, x);
    lemma_live_calm(log, x, s1, which_spec("grim"@, more(log, x)));
    if let Ok(grim) = s1.1 {
        let s2 = new_temp_spec("full"@, "png"@, s1.0);
        lemma_tidy_new("full"@, "png"@, s1.0);
        lemma_new_temp("full"@, "png"@, s1.0, x);
        lemma_regular_sound(s1.0, x, s2, new_temp_spec("full"@, "png"@, more(s1.0, x)), false);
        lemma_found_grows(grim, "grim"@, past(s1.0), past(s2.0));
        if let Ok(png) = s2.1 {
            let s3 = shoot_full_spec(grim, png, s2.0);
            lemma_shoot_full(grim, png, s2.0, x);
            lemma_live_calm(s2.0, x, s3, shoot_full_spec(grim, png, more(s2.0, x)));
            lemma_tidy_kept(dirs, png, s3);
        }
    }
}

proof fn lemma_tidy_preprocess(src: Seq<char>, log: Log)
    requires
        sound(log),
    ensures
        holds(live(past(log)), preprocess_spec(src, log)),
{
    let x = Reply::Discarded;
    let dirs = live(past(log));
    let s1 = which_spec("magick"@, log);
    lemma_which("magick"@, log, x);
    lemma_live_calm(log, x, s1, which_spec("magick"@, more(log, x)));
    if let Ok(magick) = s1.1 {
        let s2 = new_temp_spec("proc"@, "png"@, s1.0);
        lemma_tidy_new("proc"@, "png"@, s1.0);
        lemma_new_temp("proc"@, "png"@, s1.0, x);
        lemma_regular_sound(s1.0, x, s2, new_temp_spec("proc"@, "png"@, more(s1.0, x)), false);
        lemma_found_grows(magick, "magick"@, past(s1.0), past(s2.0));
        if let Ok(png) = s2.1 {
            let s3 = prepare_spec(magick, src, png, s2.0);
            lemma_prepare(magick, src, png, s2.0, x);
            lemma_live_calm(s2.0, x, s3, prepare_spec(magick, src, png, more(s2.0, x)));
            lemma_tidy_kept(dirs, png, s3);
        }
    }
}

proof fn lemma_tidy_read_capture(
    wanted: bool,
    lang: Seq<char>,
    shot: TempFileView,
    dirs: Set<Seq<u8>>,
    log: Log,
)
    requires
        sound(log),
        live(past(log)).subset_of(dirs.insert(shot.dir)),
    ensures
        tidy(dirs, read_capture_spec(wanted, lang, shot, log)),
{
    let x = Reply::Discarded;
    let source = utf8_lossy(shot.path);
    let both = dirs.insert(shot.dir);
    let s1 = preprocess_spec(source, log);
    lemma_tidy_preprocess(source, log);
    lemma_preprocess(source, log, x);
    lemma_regular_sound(log, x, s1, preprocess_spec(source, more(log, x)), false);
    match tolerated(s1).1 {
        Ok(Some(prepared)) => {
            let input = utf8_lossy(prepared.path);
            let s2 = read_spec(wanted, lang, "screen"@, input, s1.0);
            lemma_read(wanted, lang, "screen"@, input, s1.0, x);
            lemma_live_calm(
                s1.0,
                x,
                s2,
                read_spec(wanted, lang, "screen"@, input, more(s1.0, x)),
            );
            lemma_tidy_released(both, prepared, s2);
            lemma_released_sound(prepared, s2);
            lemma_tidy_released(dirs, shot, released(prepared, s2));
        },
        Ok(None) => {
            let s2 = read_spec(wanted, lang, "screen"@, source, s1.0);
            lemma_read(wanted, lang, "screen"@, source, s1.0, x);
            lemma_live_calm(
                s1.0,
                x,
                s2,
                read_spec(wanted, lang, "screen"@, source, more(s1.0, x)),
            );
            lemma_tidy_released(dirs, shot, s2);
        },
        Err(_) => {},
    }
}

proof fn lemma_released_sound<T>(file: TempFileView, s: Step<T>)
    requires
        sound(s.0),
    ensures
        sound(released(file, s).0),
{
    let x = Reply::Discarded;
    lemma_discard(s.0, file, x);
    lemma_regular_sound(s.0, x, discard_spec(file, s.0), discard_spec(file, more(s.0, x)), false);
}

pub(crate) proof fn lemma_tidy_run_ocr(opts: OptionsView, log: Log)
    requires
        sound(log),
    ensures
        tidy(live(past(log)), run_ocr_spec(opts, log)),
{
    let x = Reply::Discarded;
    let dirs = live(past(log));
    let s1 = resolve_lang_spec(opts.lang, log);
    lemma_resolve_lang(opts.lang, log, x);
    lemma_live_calm(log, x, s1, resolve_lang_spec(opts.lang, more(log, x)));
    if let Ok(lang) = s1.1 {
        match opts.file {
            Some(path) => {
                let s2 = read_file_spec(opts.copy, lang, path, s1.0);
                lemma_read_file(opts.copy, lang, path, s1.0, x);
                lemma_live_calm(
                    s1.0,
                    x,
                    s2,
                    read_file_spec(opts.copy, lang, path, more(s1.0, x)),
                );
            },
            None => {
                let s2 = capture_spec(opts.region, s1.0);
                lemma_tidy_capture(opts.region, s1.0);
                lemma_capture(opts.region, s1.0, x);
                lemma_regular_sound(s1.0, x, s2, capture_spec(opts.region, more(s1.0, x)), false);
                if let Ok(shot) = s2.1 {
                    lemma_tidy_read_capture(opts.copy, lang, shot, dirs, s2.0);
                }
            },
        }
    }
}

/// No command leaves a directory behind.
pub(crate) proof fn lemma_tidy_dispatch(args: Seq<Seq<char>>, log: Log)
    requires
        sound(log),
    ensures
        tidy(live(past(log)), dispatch_spec(args, log)),
{
    let x = Reply::Discarded;
    lemma_cmd_langs(log, x);
    lemma_live_calm(log, x, cmd_langs_spec(log), cmd_langs_spec(more(log, x)));
    lemma_cmd_lang(log, x);
    lemma_live_calm(log, x, cmd_lang_spec(log), cmd_lang_spec(more(log, x)));
    lemma_copy_input(log, x);
    lemma_live_calm(log, x, copy_input(log), copy_input(more(log, x)));
    if let Ok(p) = parsed(args.skip(1)) {
        lemma_tidy_run_ocr(OptionsView { region: true, ..p.opts }, log);
        lemma_tidy_run_ocr(OptionsView { region: false, ..p.opts }, log);
        if p.positional.len() > 0 {
            lemma_tidy_run_ocr(OptionsView { file: Some(p.positional[0]), ..p.opts }, log);
        }
    }
    if args.len() > 0 && args[0] == "copy"@ && args.skip(1).len() == 0 {
        assert(cmd_copy_spec(args.skip(1), log) == copy_input(log));
    }
}

} // verus!
