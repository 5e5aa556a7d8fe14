//! How each command goes on: the proof that every request is a permitted one and
//! that a conversation resumes where it stopped.

use vstd::prelude::*;
use vstd::utf8::encode_utf8;

use crate::cli::{
    cmd_lang_spec, cmd_langs_spec, copied_from, copy_input, dispatch_spec, show_spec, OutputView,
};
use crate::engine::{
    capture_full_spec, capture_region_spec, capture_spec, copy_spec, full_into, image_size_spec,
    magick_args, ocr_confidence_spec, ocr_image_spec, offer_spec, offered, piped, prepare_spec,
    prepared_at, prepared_into, preprocess_spec, rated, rated_and_offered, read_args,
    read_capture_spec, read_file_spec, read_prepared_spec, read_screen, read_shot, read_spec,
    recognized, region_into, region_shot, region_with, run_ocr_spec, shoot_full_spec,
    shoot_region_spec, sized_by, tool_spec,
};
use crate::host::{
    put, put_create, put_dirs, put_discard, put_flag, put_input, put_pipe, put_place, put_run,
    put_stamp, tolerated, Creation, Log, Reply, RequestView, Running, Step, StopView, PRIVATE_MODE,
};
use crate::lang::{
    detect_lang_spec, detect_layout_spec, fcitx_spec, hyprland_layout, layout_from,
    list_langs_spec, listing, printed, resolve_lang_spec, settled, with_layout,
};
use crate::options::{default_options, parsed, parsed_from, OptionsView, Parsed};
use crate::paths::joined;
use crate::tempfile::{
    attempts, checked, dir_path, discard_spec, kept, named, new_temp_spec, released,
    runtime_dir_spec, temp_dirs_spec, Naming, TempFileView, ATTEMPTS,
};
use crate::text::trimmed;
use crate::tools::{first_file, run_spec, which_spec};
use crate::trace::{
    found, is_base, is_place_at, is_private_dir, is_purpose, known_command, lemma_bases_grow,
    lemma_finish, lemma_found_grows, lemma_glue, lemma_on_path_grows, lemma_past_more, lemma_put,
    lemma_regular_sound, lemma_sound_more, lemma_still, more, on_path, on_path_at, past, pending,
    region_args, regular, screen_args, size_args, sound,
};
use crate::unicode::utf8_lossy;

verus! {

proof fn lemma_flag(log: Log, request: RequestView, x: Reply)
    requires
        sound(log),
        request is IsFile || request is IsDir,
    ensures
        regular(log, x, put_flag(log, request), put_flag(more(log, x), request), true),
{
    lemma_put(log, request, x, true);
    lemma_finish(
        log,
        x,
        put(log, request),
        put(more(log, x), request),
        put_flag(log, request),
        put_flag(more(log, x), request),
        true,
    );
}

proof fn lemma_dirs(log: Log, x: Reply)
    requires
        sound(log),
    ensures
        regular(log, x, put_dirs(log), put_dirs(more(log, x)), true),
{
    let request = RequestView::SearchPath;
    lemma_put(log, request, x, true);
    lemma_finish(
        log,
        x,
        put(log, request),
        put(more(log, x), request),
        put_dirs(log),
        put_dirs(more(log, x)),
        true,
    );
}

proof fn lemma_place(log: Log, x: Reply)
    requires
        sound(log),
    ensures
        regular(log, x, put_place(log), put_place(more(log, x)), true),
{
    let request = RequestView::RuntimeDir;
    lemma_put(log, request, x, true);
    lemma_finish(
        log,
        x,
        put(log, request),
        put(more(log, x), request),
        put_place(log),
        put_place(more(log, x)),
        true,
    );
}

pub(crate) proof fn lemma_stamp(log: Log, x: Reply)
    requires
        sound(log),
    ensures
        regular(log, x, put_stamp(log), put_stamp(more(log, x)), true),
{
    let request = RequestView::Stamp;
    lemma_put(log, request, x, true);
    lemma_finish(
        log,
        x,
        put(log, request),
        put(more(log, x), request),
        put_stamp(log),
        put_stamp(more(log, x)),
        true,
    );
}

proof fn lemma_input(log: Log, x: Reply)
    requires
        sound(log),
    ensures
        regular(log, x, put_input(log), put_input(more(log, x)), true),
{
    let request = RequestView::ReadInput;
    lemma_put(log, request, x, true);
    lemma_finish(
        log,
        x,
        put(log, request),
        put(more(log, x), request),
        put_input(log),
        put_input(more(log, x)),
        true,
    );
}

proof fn lemma_create(log: Log, path: Seq<u8>, x: Reply)
    requires
        sound(log),
        is_private_dir(path, past(log)),
    ensures
        regular(log, x, put_create(log, path), put_create(more(log, x), path), false),
{
    let request = RequestView::CreateDir { path, mode: PRIVATE_MODE };
    lemma_put(log, request, x, false);
    lemma_finish(
        log,
        x,
        put(log, request),
        put(more(log, x), request),
        put_create(log, path),
        put_create(more(log, x), path),
        false,
    );
}

pub(crate) proof fn lemma_discard(log: Log, file: TempFileView, x: Reply)
    requires
        sound(log),
    ensures
        regular(
            log,
            x,
            put_discard(log, file.path, file.dir),
            put_discard(more(log, x), file.path, file.dir),
            false,
        ),
{
    let request = RequestView::Discard { path: file.path, dir: file.dir };
    lemma_put(log, request, x, false);
    lemma_finish(
        log,
        x,
        put(log, request),
        put(more(log, x), request),
        put_discard(log, file.path, file.dir),
        put_discard(more(log, x), file.path, file.dir),
        false,
    );
}

proof fn lemma_run(log: Log,
    program: Seq<u8>,
    args: Seq<Seq<char>>,
    null_stdin: bool,
    capture: bool, x: Reply)
    requires
        sound(log),
        known_command(program, args, past(log)),
    ensures
        regular(
            log,
            x,
            put_run(log, program, args, null_stdin, capture),
            put_run(more(log, x), program, args, null_stdin, capture),
            true,
        ),
{
    let request = RequestView::Run { program, args, null_stdin, capture };
    lemma_put(log, request, x, true);
    lemma_finish(
        log,
        x,
        put(log, request),
        put(more(log, x), request),
        put_run(log, program, args, null_stdin, capture),
        put_run(more(log, x), program, args, null_stdin, capture),
        true,
    );
}

proof fn lemma_pipe(log: Log, program: Seq<u8>, input: Seq<char>, x: Reply)
    requires
        sound(log),
        found(program, "wl-copy"@, past(log)),
    ensures
        regular(
            log,
            x,
            put_pipe(log, program, input),
            put_pipe(more(log, x), program, input),
            true,
        ),
{
    let request = RequestView::Pipe { program, input };
    lemma_put(log, request, x, true);
    lemma_finish(
        log,
        x,
        put(log, request),
        put(more(log, x), request),
        put_pipe(log, program, input),
        put_pipe(more(log, x), program, input),
        true,
    );
}

proof fn lemma_first_file_found(name: Seq<char>, dirs: Seq<Seq<u8>>, i: int, log: Log)
    requires
        sound(log),
        forall|j: int| 0 <= j < dirs.len() ==> on_path(#[trigger] dirs[j], past(log)),
    ensures
        first_file(name, dirs, i, log).1 matches Ok(path) ==> found(
            path,
            name,
            past(first_file(name, dirs, i, log).0),
        ),
    decreases dirs.len() - i,
{
    if 0 <= i < dirs.len() {
        let path = joined(dirs[i], encode_utf8(name));
        let request = RequestView::IsFile { path };
        let x = Reply::Discarded;
        lemma_put(log, request, x, true);
        let s = put(log, request);
        if s.1 is Ok {
            lemma_regular_sound(log, x, s, put(more(log, x), request), true);
            let p = past(log);
            let q = past(s.0);
            assert(q[p.len() as int] == (request, s.1->Ok_0));
            assert forall|j: int| 0 <= j < dirs.len() implies on_path(#[trigger] dirs[j], q) by {
                lemma_on_path_grows(dirs[j], p, q);
            }
            if put_flag(log, request).1 == Ok::<bool, StopView>(true) {
                assert(q.contains((request, Reply::Flag(true))));
                assert(on_path(dirs[i], q));
            } else {
                lemma_first_file_found(name, dirs, i + 1, s.0);
            }
        }
    }
}

proof fn lemma_first_file(name: Seq<char>, dirs: Seq<Seq<u8>>, i: int, log: Log, x: Reply)
    requires
        sound(log),
    ensures
        regular(
            log,
            x,
            first_file(name, dirs, i, log),
            first_file(name, dirs, i, more(log, x)),
            true,
        ),
    decreases dirs.len() - i,
{
    let s = first_file(name, dirs, i, log);
    let t = first_file(name, dirs, i, more(log, x));
    if i < 0 || i >= dirs.len() {
        lemma_still(log, x, s.1, true);
    } else {
        let path = joined(dirs[i], encode_utf8(name));
        let request = RequestView::IsFile { path };
        let s1 = put_flag(log, request);
        let t1 = put_flag(more(log, x), request);
        lemma_flag(log, request, x);
        lemma_regular_sound(log, x, s1, t1, true);
        if let Ok(is_file) = s1.1 {
            if is_file {
                lemma_still(s1.0, x, s.1, true);
            } else {
                lemma_first_file(name, dirs, i + 1, s1.0, x);
            }
        } else if let Ok(is_file) = t1.1 {
            if is_file {
                lemma_still(t1.0, x, t.1, true);
            } else {
                lemma_first_file(name, dirs, i + 1, t1.0, x);
            }
        }
        lemma_glue(log, x, s1, t1, s, t, true);
    }
}

/// The program that is found is a file in a directory that is searched.
proof fn lemma_which_found(name: Seq<char>, log: Log)
    requires
        sound(log),
    ensures
        which_spec(name, log).1 matches Ok(path) ==> found(
            path,
            name,
            past(which_spec(name, log).0),
        ),
{
    let x = Reply::Discarded;
    lemma_put(log, RequestView::SearchPath, x, true);
    let s = put(log, RequestView::SearchPath);
    if put_dirs(log).1 is Ok {
        lemma_regular_sound(log, x, s, put(more(log, x), RequestView::SearchPath), true);
        let dirs = put_dirs(log).1->Ok_0;
        let k = past(log).len() as int;
        assert forall|j: int| 0 <= j < dirs.len() implies on_path(
            #[trigger] dirs[j],
            past(s.0),
        ) by {
            assert(past(s.0)[k] == (RequestView::SearchPath, s.1->Ok_0));
            assert(on_path_at(dirs[j], past(s.0), k, j));
        }
        lemma_first_file_found(name, dirs, 0, s.0);
    }
}

pub(crate) proof fn lemma_which(name: Seq<char>, log: Log, x: Reply)
    requires
        sound(log),
    ensures
        regular(log, x, which_spec(name, log), which_spec(name, more(log, x)), true),
        which_spec(name, log).1 matches Ok(path) ==> found(
            path,
            name,
            past(which_spec(name, log).0),
        ),
        which_spec(name, more(log, x)).1 matches Ok(path) ==> found(
            path,
            name,
            past(which_spec(name, more(log, x)).0),
        ),
{
    let s1 = put_dirs(log);
    let t1 = put_dirs(more(log, x));
    lemma_dirs(log, x);
    lemma_regular_sound(log, x, s1, t1, true);
    if let Ok(dirs) = s1.1 {
        lemma_first_file(name, dirs, 0, s1.0, x);
    } else if let Ok(dirs) = t1.1 {
        lemma_first_file(name, dirs, 0, t1.0, x);
    }
    lemma_glue(log, x, s1, t1, which_spec(name, log), which_spec(name, more(log, x)), true);
    lemma_which_found(name, log);
    lemma_sound_more(log, x);
    lemma_which_found(name, more(log, x));
}

proof fn lemma_run_spec(cmd: Seq<u8>, args: Seq<Seq<char>>, log: Log, x: Reply)
    requires
        sound(log),
        known_command(cmd, args, past(log)),
    ensures
        regular(log, x, run_spec(cmd, args, log), run_spec(cmd, args, more(log, x)), true),
{
    lemma_run(log, cmd, args, true, true, x);
    lemma_finish(
        log,
        x,
        put_run(log, cmd, args, true, true),
        put_run(more(log, x), cmd, args, true, true),
        run_spec(cmd, args, log),
        run_spec(cmd, args, more(log, x)),
        true,
    );
}

proof fn lemma_listing(tesseract: Seq<u8>, log: Log, x: Reply)
    requires
        sound(log),
        found(tesseract, "tesseract"@, past(log)),
    ensures
        regular(log, x, listing(tesseract, log), listing(tesseract, more(log, x)), true),
{
    lemma_run(log, tesseract, seq!["--list-langs"@], false, true, x);
    lemma_finish(
        log,
        x,
        put_run(log, tesseract, seq!["--list-langs"@], false, true),
        put_run(more(log, x), tesseract, seq!["--list-langs"@], false, true),
        listing(tesseract, log),
        listing(tesseract, more(log, x)),
        true,
    );
}

pub(crate) proof fn lemma_list_langs(log: Log, x: Reply)
    requires
        sound(log),
    ensures
        regular(log, x, list_langs_spec(log), list_langs_spec(more(log, x)), true),
{
    let s1 = which_spec("tesseract"@, log);
    let t1 = which_spec("tesseract"@, more(log, x));
    lemma_which("tesseract"@, log, x);
    lemma_regular_sound(log, x, s1, t1, true);
    if let Ok(tesseract) = s1.1 {
        lemma_listing(tesseract, s1.0, x);
    } else if let Ok(tesseract) = t1.1 {
        lemma_listing(tesseract, t1.0, x);
    }
    lemma_glue(log, x, s1, t1, list_langs_spec(log), list_langs_spec(more(log, x)), true);
}

proof fn lemma_fcitx(log: Log, x: Reply)
    requires
        sound(log),
    ensures
        regular(log, x, fcitx_spec(log), fcitx_spec(more(log, x)), true),
{
    lemma_run(log, encode_utf8("fcitx5-remote"@), seq!["-n"@], false, true, x);
    lemma_finish(
        log,
        x,
        put_run(log, encode_utf8("fcitx5-remote"@), seq!["-n"@], false, true),
        put_run(more(log, x), encode_utf8("fcitx5-remote"@), seq!["-n"@], false, true),
        fcitx_spec(log),
        fcitx_spec(more(log, x)),
        true,
    );
}

proof fn lemma_layout_from(running: Running, log: Log, x: Reply)
    requires
        sound(log),
    ensures
        regular(log, x, layout_from(running, log), layout_from(running, more(log, x)), true),
{
    lemma_fcitx(log, x);
    if let Some(report) = printed(running) {
        if let Some(layout) = hyprland_layout(report) {
            lemma_still(log, x, Ok::<Seq<char>, StopView>(layout), true);
        }
    }
}

pub(crate) proof fn lemma_detect_layout(log: Log, x: Reply)
    requires
        sound(log),
    ensures
        regular(log, x, detect_layout_spec(log), detect_layout_spec(more(log, x)), true),
{
    let s1 = put_run(
        log,
        encode_utf8("hyprctl"@),
        seq!["getoption"@, "input:kb_layout"@],
        false,
        true,
    );
    let t1 = put_run(
        more(log, x),
        encode_utf8("hyprctl"@),
        seq!["getoption"@, "input:kb_layout"@],
        false,
        true,
    );
    lemma_run(log, encode_utf8("hyprctl"@), seq!["getoption"@, "input:kb_layout"@], false, true, x);
    lemma_regular_sound(log, x, s1, t1, true);
    if let Ok(running) = s1.1 {
        lemma_layout_from(running, s1.0, x);
    } else if let Ok(running) = t1.1 {
        lemma_layout_from(running, t1.0, x);
    }
    lemma_glue(log, x, s1, t1, detect_layout_spec(log), detect_layout_spec(more(log, x)), true);
}

proof fn lemma_settled(requested: Seq<char>, langs: Seq<Seq<char>>, log: Log, x: Reply)
    requires
        sound(log),
    ensures
        regular(
            log,
            x,
            settled(requested, langs, log),
            settled(requested, langs, more(log, x)),
            true,
        ),
{
    if requested.len() > 0 && langs.contains(requested) {
        lemma_still(log, x, Ok::<Seq<char>, StopView>(requested), true);
    } else {
        lemma_detect_layout(log, x);
        lemma_finish(
            log,
            x,
            detect_layout_spec(log),
            detect_layout_spec(more(log, x)),
            settled(requested, langs, log),
            settled(requested, langs, more(log, x)),
            true,
        );
    }
}

pub(crate) proof fn lemma_resolve_lang(requested: Seq<char>, log: Log, x: Reply)
    requires
        sound(log),
    ensures
        regular(
            log,
            x,
            resolve_lang_spec(requested, log),
            resolve_lang_spec(requested, more(log, x)),
            true,
        ),
{
    let s1 = list_langs_spec(log);
    let t1 = list_langs_spec(more(log, x));
    lemma_list_langs(log, x);
    lemma_regular_sound(log, x, s1, t1, true);
    if let Ok(langs) = s1.1 {
        lemma_settled(requested, langs, s1.0, x);
    } else if let Ok(langs) = t1.1 {
        lemma_settled(requested, langs, t1.0, x);
    }
    lemma_glue(
        log,
        x,
        s1,
        t1,
        resolve_lang_spec(requested, log),
        resolve_lang_spec(requested, more(log, x)),
        true,
    );
}

proof fn lemma_with_layout(layout: Seq<char>, log: Log, x: Reply)
    requires
        sound(log),
    ensures
        regular(log, x, with_layout(layout, log), with_layout(layout, more(log, x)), true),
{
    lemma_resolve_lang(Seq::empty(), log, x);
    lemma_finish(
        log,
        x,
        resolve_lang_spec(Seq::empty(), log),
        resolve_lang_spec(Seq::empty(), more(log, x)),
        with_layout(layout, log),
        with_layout(layout, more(log, x)),
        true,
    );
}

proof fn lemma_detect_lang(log: Log, x: Reply)
    requires
        sound(log),
    ensures
        regular(log, x, detect_lang_spec(log), detect_lang_spec(more(log, x)), true),
{
    let s1 = detect_layout_spec(log);
    let t1 = detect_layout_spec(more(log, x));
    lemma_detect_layout(log, x);
    lemma_regular_sound(log, x, s1, t1, true);
    if let Ok(layout) = s1.1 {
        lemma_with_layout(layout, s1.0, x);
    } else if let Ok(layout) = t1.1 {
        lemma_with_layout(layout, t1.0, x);
    }
    lemma_glue(log, x, s1, t1, detect_lang_spec(log), detect_lang_spec(more(log, x)), true);
}

proof fn lemma_checked(place: Option<Seq<u8>>, log: Log, x: Reply)
    requires
        sound(log),
    ensures
        regular(log, x, checked(place, log), checked(place, more(log, x)), true),
{
    match place {
        Some(path) => {
            let request = RequestView::IsDir { path };
            lemma_flag(log, request, x);
            lemma_finish(
                log,
                x,
                put_flag(log, request),
                put_flag(more(log, x), request),
                checked(place, log),
                checked(place, more(log, x)),
                true,
            );
        },
        None => {
            lemma_still(log, x, Ok::<Option<Seq<u8>>, StopView>(None), true);
        },
    }
}

proof fn lemma_runtime_dir(log: Log, x: Reply)
    requires
        sound(log),
    ensures
        regular(log, x, runtime_dir_spec(log), runtime_dir_spec(more(log, x)), true),
{
    let s1 = put_place(log);
    let t1 = put_place(more(log, x));
    lemma_place(log, x);
    lemma_regular_sound(log, x, s1, t1, true);
    if let Ok(place) = s1.1 {
        lemma_checked(place, s1.0, x);
    } else if let Ok(place) = t1.1 {
        lemma_checked(place, t1.0, x);
    }
    lemma_glue(log, x, s1, t1, runtime_dir_spec(log), runtime_dir_spec(more(log, x)), true);
}

/// The directory of the login session is a place for temporary directories.
proof fn lemma_runtime_dir_base(log: Log)
    requires
        sound(log),
    ensures
        runtime_dir_spec(log).1 matches Ok(Some(dir)) ==> is_base(
            dir,
            past(runtime_dir_spec(log).0),
        ),
{
    let x = Reply::Discarded;
    let asks = RequestView::RuntimeDir;
    lemma_put(log, asks, x, true);
    if let Ok(Some(dir)) = runtime_dir_spec(log).1 {
        let l1 = put(log, asks).0;
        lemma_regular_sound(log, x, put(log, asks), put(more(log, x), asks), true);
        let request = RequestView::IsDir { path: dir };
        lemma_put(l1, request, x, true);
        let q = past(put(l1, request).0);
        let k = past(log).len() as int;
        assert(q[k] == past(l1)[k]);
        assert(is_place_at(dir, q, k));
        assert(q[k + 1] == (request, Reply::Flag(true)));
    }
}

pub(crate) proof fn lemma_temp_dirs(log: Log, x: Reply)
    requires
        sound(log),
    ensures
        regular(log, x, temp_dirs_spec(log), temp_dirs_spec(more(log, x)), true),
{
    lemma_runtime_dir(log, x);
    lemma_finish(
        log,
        x,
        runtime_dir_spec(log),
        runtime_dir_spec(more(log, x)),
        temp_dirs_spec(log),
        temp_dirs_spec(more(log, x)),
        true,
    );
}

proof fn lemma_temp_dirs_bases(log: Log)
    requires
        sound(log),
    ensures
        temp_dirs_spec(log).1 matches Ok(dirs) ==> forall|d: int|
            0 <= d < dirs.len() ==> is_base(#[trigger] dirs[d], past(temp_dirs_spec(log).0)),
{
    lemma_runtime_dir_base(log);
}

proof fn lemma_attempts(
    n: Naming,
    dirs: Seq<Seq<u8>>,
    d: int,
    a: nat,
    log: Log,
    x: Reply,
)
    requires
        sound(log),
        is_purpose(n.prefix),
        forall|j: int| 0 <= j < dirs.len() ==> is_base(#[trigger] dirs[j], past(log)),
    ensures
        regular(
            log,
            x,
            attempts(n, dirs, d, a, log),
            attempts(n, dirs, d, a, more(log, x)),
            false,
        ),
    decreases dirs.len() - d, ATTEMPTS - a,
{
    let s = attempts(n, dirs, d, a, log);
    let t = attempts(n, dirs, d, a, more(log, x));
    if d < 0 || d >= dirs.len() {
        lemma_still(log, x, s.1, false);
    } else if a >= ATTEMPTS {
        lemma_attempts(n, dirs, d + 1, 0, log, x);
    } else {
        let dir = dir_path(n, dirs[d], log.serial, a);
        let s1 = put_create(log, dir);
        let t1 = put_create(more(log, x), dir);
        assert(is_private_dir(dir, past(log)));
        lemma_create(log, dir, x);
        lemma_regular_sound(log, x, s1, t1, false);
        lemma_past_more(log, x);
        if let Ok(creation) = s1.1 {
            lemma_bases_grow(dirs, past(log), past(s1.0));
            match creation {
                Creation::Exists => {
                    lemma_attempts(n, dirs, d, a + 1, s1.0, x);
                },
                Creation::Denied => {
                    lemma_attempts(n, dirs, d + 1, 0, s1.0, x);
                },
                _ => {
                    lemma_still(s1.0, x, s.1, false);
                },
            }
        } else if let Ok(creation) = t1.1 {
            lemma_bases_grow(dirs, past(log), past(t1.0));
            match creation {
                Creation::Exists => {
                    lemma_attempts(n, dirs, d, a + 1, t1.0, x);
                },
                Creation::Denied => {
                    lemma_attempts(n, dirs, d + 1, 0, t1.0, x);
                },
                _ => {
                    lemma_still(t1.0, x, t.1, false);
                },
            }
        }
        lemma_glue(log, x, s1, t1, s, t, false);
    }
}

proof fn lemma_named(n: Naming, log: Log, x: Reply)
    requires
        sound(log),
        is_purpose(n.prefix),
    ensures
        regular(log, x, named(n, log), named(n, more(log, x)), false),
{
    let s1 = temp_dirs_spec(log);
    let t1 = temp_dirs_spec(more(log, x));
    lemma_temp_dirs(log, x);
    lemma_temp_dirs_bases(log);
    lemma_sound_more(log, x);
    lemma_temp_dirs_bases(more(log, x));
    lemma_regular_sound(log, x, s1, t1, true);
    if let Ok(dirs) = s1.1 {
        lemma_attempts(n, dirs, 0, 0, s1.0, x);
    } else if let Ok(dirs) = t1.1 {
        lemma_attempts(n, dirs, 0, 0, t1.0, x);
    }
    lemma_glue(log, x, s1, t1, named(n, log), named(n, more(log, x)), false);
}

pub(crate) proof fn lemma_new_temp(prefix: Seq<char>, ext: Seq<char>, log: Log, x: Reply)
    requires
        sound(log),
        is_purpose(prefix),
    ensures
        regular(
            log,
            x,
            new_temp_spec(prefix, ext, log),
            new_temp_spec(prefix, ext, more(log, x)),
            false,
        ),
{
    let s1 = put_stamp(log);
    let t1 = put_stamp(more(log, x));
    lemma_stamp(log, x);
    lemma_regular_sound(log, x, s1, t1, true);
    if let Ok((nonce, pid)) = s1.1 {
        lemma_named(Naming { prefix, ext, nonce, pid }, s1.0, x);
    } else if let Ok((nonce, pid)) = t1.1 {
        lemma_named(Naming { prefix, ext, nonce, pid }, t1.0, x);
    }
    lemma_glue(
        log,
        x,
        s1,
        t1,
        new_temp_spec(prefix, ext, log),
        new_temp_spec(prefix, ext, more(log, x)),
        false,
    );
}

proof fn lemma_tolerated<T>(log: Log, x: Reply, s: Step<T>, t: Step<T>, calm: bool)
    requires
        regular(log, x, s, t, calm),
    ensures
        regular(log, x, tolerated(s), tolerated(t), calm),
{
    reveal(regular);
}

proof fn lemma_released<T>(file: TempFileView, log: Log, x: Reply, s: Step<T>, t: Step<T>)
    requires
        regular(log, x, s, t, false),
    ensures
        regular(log, x, released(file, s), released(file, t), false),
{
    lemma_regular_sound(log, x, s, t, false);
    let s1 = finished(s);
    let t1 = finished(t);
    assert(regular(log, x, s1, t1, false)) by {
        reveal(regular);
    }
    if let Ok(result) = s1.1 {
        lemma_discarded(file, result, s1.0, x);
    } else if let Ok(result) = t1.1 {
        lemma_discarded(file, result, t1.0, x);
    }
    lemma_glue(log, x, s1, t1, released(file, s), released(file, t), false);
}

spec fn finished<T>(s: Step<T>) -> Step<Result<T, StopView>> {
    match s.1 {
        Err(StopView::Ask(request)) => (s.0, Err(StopView::Ask(request))),
        Err(StopView::Mismatch) => (s.0, Err(StopView::Mismatch)),
        result => (s.0, Ok(result)),
    }
}

spec fn discarded<T>(file: TempFileView, result: Result<T, StopView>, log: Log) -> Step<T> {
    match discard_spec(file, log) {
        (next, Ok(())) => (next, result),
        (next, Err(stop)) => (next, Err(stop)),
    }
}

proof fn lemma_discarded<T>(
    file: TempFileView,
    result: Result<T, StopView>,
    log: Log,
    x: Reply,
)
    requires
        sound(log),
        pending(result) is None,
        result != Err::<T, StopView>(StopView::Mismatch),
    ensures
        regular(
            log,
            x,
            discarded(file, result, log),
            discarded(file, result, more(log, x)),
            false,
        ),
{
    lemma_discard(log, file, x);
    lemma_finish(
        log,
        x,
        discard_spec(file, log),
        discard_spec(file, more(log, x)),
        discarded(file, result, log),
        discarded(file, result, more(log, x)),
        false,
    );
}

proof fn lemma_kept(file: TempFileView, log: Log, x: Reply, s: Step<()>, t: Step<()>)
    requires
        regular(log, x, s, t, false),
    ensures
        regular(log, x, kept(file, s), kept(file, t), false),
{
    lemma_regular_sound(log, x, s, t, false);
    let s1 = finished(s);
    let t1 = finished(t);
    assert(regular(log, x, s1, t1, false)) by {
        reveal(regular);
    }
    if let Ok(result) = s1.1 {
        lemma_kept_or_not(file, result, s1.0, x);
    } else if let Ok(result) = t1.1 {
        lemma_kept_or_not(file, result, t1.0, x);
    }
    lemma_glue(log, x, s1, t1, kept(file, s), kept(file, t), false);
}

proof fn lemma_kept_or_not(
    file: TempFileView,
    result: Result<(), StopView>,
    log: Log,
    x: Reply,
)
    requires
        sound(log),
        pending(result) is None,
        result != Err::<(), StopView>(StopView::Mismatch),
    ensures
        regular(log, x, kept(file, (log, result)), kept(file, (more(log, x), result)), false),
{
    match result {
        Ok(()) => {
            lemma_still(log, x, Ok::<TempFileView, StopView>(file), false);
        },
        Err(stop) => {
            lemma_discarded(file, Err::<TempFileView, StopView>(stop), log, x);
        },
    }
}

proof fn lemma_tool(name: Seq<char>, program: Seq<u8>, args: Seq<Seq<char>>, log: Log, x: Reply)
    requires
        sound(log),
        known_command(program, args, past(log)),
    ensures
        regular(
            log,
            x,
            tool_spec(name, program, args, log),
            tool_spec(name, program, args, more(log, x)),
            true,
        ),
{
    lemma_run(log, program, args, true, true, x);
    lemma_finish(
        log,
        x,
        put_run(log, program, args, true, true),
        put_run(more(log, x), program, args, true, true),
        tool_spec(name, program, args, log),
        tool_spec(name, program, args, more(log, x)),
        true,
    );
}

proof fn lemma_region_shot(
    grim: Seq<u8>,
    png: TempFileView,
    output: Seq<char>,
    log: Log,
    x: Reply,
)
    requires
        sound(log),
        found(grim, "grim"@, past(log)),
    ensures
        regular(
            log,
            x,
            region_shot(grim, png, output, log),
            region_shot(grim, png, output, more(log, x)),
            true,
        ),
{
    let region = trimmed(output);
    let args = region_args(region, utf8_lossy(png.path));
    if region.len() == 0 {
        lemma_still(log, x, region_shot(grim, png, output, log).1, true);
    } else {
        lemma_tool("grim"@, grim, args, log, x);
        lemma_finish(
            log,
            x,
            tool_spec("grim"@, grim, args, log),
            tool_spec("grim"@, grim, args, more(log, x)),
            region_shot(grim, png, output, log),
            region_shot(grim, png, output, more(log, x)),
            true,
        );
    }
}

pub(crate) proof fn lemma_shoot_region(
    slurp: Seq<u8>,
    grim: Seq<u8>,
    png: TempFileView,
    log: Log,
    x: Reply,
)
    requires
        sound(log),
        found(slurp, "slurp"@, past(log)),
        found(grim, "grim"@, past(log)),
    ensures
        regular(
            log,
            x,
            shoot_region_spec(slurp, grim, png, log),
            shoot_region_spec(slurp, grim, png, more(log, x)),
            true,
        ),
{
    let s1 = run_spec(slurp, Seq::empty(), log);
    let t1 = run_spec(slurp, Seq::empty(), more(log, x));
    lemma_past_more(log, x);
    lemma_run_spec(slurp, Seq::empty(), log, x);
    lemma_regular_sound(log, x, s1, t1, true);
    if let Ok(output) = s1.1 {
        lemma_found_grows(grim, "grim"@, past(log), past(s1.0));
        lemma_region_shot(grim, png, output, s1.0, x);
    } else if let Ok(output) = t1.1 {
        lemma_found_grows(grim, "grim"@, past(log), past(t1.0));
        lemma_region_shot(grim, png, output, t1.0, x);
    }
    lemma_glue(
        log,
        x,
        s1,
        t1,
        shoot_region_spec(slurp, grim, png, log),
        shoot_region_spec(slurp, grim, png, more(log, x)),
        true,
    );
}

proof fn lemma_region_into(slurp: Seq<u8>, grim: Seq<u8>, log: Log, x: Reply)
    requires
        sound(log),
        found(slurp, "slurp"@, past(log)),
        found(grim, "grim"@, past(log)),
    ensures
        regular(
            log,
            x,
            region_into(slurp, grim, log),
            region_into(slurp, grim, more(log, x)),
            false,
        ),
{
    let s1 = new_temp_spec("region"@, "png"@, log);
    let t1 = new_temp_spec("region"@, "png"@, more(log, x));
    lemma_past_more(log, x);
    lemma_new_temp("region"@, "png"@, log, x);
    lemma_regular_sound(log, x, s1, t1, false);
    if let Ok(png) = s1.1 {
        lemma_found_grows(slurp, "slurp"@, past(log), past(s1.0));
        lemma_found_grows(grim, "grim"@, past(log), past(s1.0));
        let shot = shoot_region_spec(slurp, grim, png, s1.0);
        let shot_more = shoot_region_spec(slurp, grim, png, more(s1.0, x));
        lemma_shoot_region(slurp, grim, png, s1.0, x);
        lemma_regular_sound(s1.0, x, shot, shot_more, true);
        lemma_kept(png, s1.0, x, shot, shot_more);
    } else if let Ok(png) = t1.1 {
        lemma_found_grows(slurp, "slurp"@, past(log), past(t1.0));
        lemma_found_grows(grim, "grim"@, past(log), past(t1.0));
        let shot = shoot_region_spec(slurp, grim, png, t1.0);
        let shot_more = shoot_region_spec(slurp, grim, png, more(t1.0, x));
        lemma_shoot_region(slurp, grim, png, t1.0, x);
        lemma_regular_sound(t1.0, x, shot, shot_more, true);
        lemma_kept(png, t1.0, x, shot, shot_more);
    }
    lemma_glue(
        log,
        x,
        s1,
        t1,
        region_into(slurp, grim, log),
        region_into(slurp, grim, more(log, x)),
        false,
    );
}

proof fn lemma_region_with(slurp: Seq<u8>, log: Log, x: Reply)
    requires
        sound(log),
        found(slurp, "slurp"@, past(log)),
    ensures
        regular(log, x, region_with(slurp, log), region_with(slurp, more(log, x)), false),
{
    let s1 = which_spec("grim"@, log);
    let t1 = which_spec("grim"@, more(log, x));
    lemma_past_more(log, x);
    lemma_which("grim"@, log, x);
    lemma_regular_sound(log, x, s1, t1, true);
    if let Ok(grim) = s1.1 {
        lemma_found_grows(slurp, "slurp"@, past(log), past(s1.0));
        lemma_region_into(slurp, grim, s1.0, x);
    } else if let Ok(grim) = t1.1 {
        lemma_found_grows(slurp, "slurp"@, past(log), past(t1.0));
        lemma_region_into(slurp, grim, t1.0, x);
    }
    lemma_glue(log, x, s1, t1, region_with(slurp, log), region_with(slurp, more(log, x)), false);
}

proof fn lemma_capture_region(log: Log, x: Reply)
    requires
        sound(log),
    ensures
        regular(log, x, capture_region_spec(log), capture_region_spec(more(log, x)), false),
{
    let s1 = which_spec("slurp"@, log);
    let t1 = which_spec("slurp"@, more(log, x));
    lemma_which("slurp"@, log, x);
    lemma_regular_sound(log, x, s1, t1, true);
    if let Ok(slurp) = s1.1 {
        lemma_region_with(slurp, s1.0, x);
    } else if let Ok(slurp) = t1.1 {
        lemma_region_with(slurp, t1.0, x);
    }
    lemma_glue(log, x, s1, t1, capture_region_spec(log), capture_region_spec(more(log, x)), false);
}

pub(crate) proof fn lemma_shoot_full(grim: Seq<u8>, png: TempFileView, log: Log, x: Reply)
    requires
        sound(log),
        found(grim, "grim"@, past(log)),
    ensures
        regular(
            log,
            x,
            shoot_full_spec(grim, png, log),
            shoot_full_spec(grim, png, more(log, x)),
            true,
        ),
{
    let args = screen_args(utf8_lossy(png.path));
    lemma_tool("grim"@, grim, args, log, x);
    lemma_finish(
        log,
        x,
        tool_spec("grim"@, grim, seq![utf8_lossy(png.path)], log),
        tool_spec("grim"@, grim, seq![utf8_lossy(png.path)], more(log, x)),
        shoot_full_spec(grim, png, log),
        shoot_full_spec(grim, png, more(log, x)),
        true,
    );
}

proof fn lemma_full_into(grim: Seq<u8>, log: Log, x: Reply)
    requires
        sound(log),
        found(grim, "grim"@, past(log)),
    ensures
        regular(log, x, full_into(grim, log), full_into(grim, more(log, x)), false),
{
    let s1 = new_temp_spec("full"@, "png"@, log);
    let t1 = new_temp_spec("full"@, "png"@, more(log, x));
    lemma_past_more(log, x);
    lemma_new_temp("full"@, "png"@, log, x);
    lemma_regular_sound(log, x, s1, t1, false);
    if let Ok(png) = s1.1 {
        lemma_found_grows(grim, "grim"@, past(log), past(s1.0));
        let shot = shoot_full_spec(grim, png, s1.0);
        let shot_more = shoot_full_spec(grim, png, more(s1.0, x));
        lemma_shoot_full(grim, png, s1.0, x);
        lemma_regular_sound(s1.0, x, shot, shot_more, true);
        lemma_kept(png, s1.0, x, shot, shot_more);
    } else if let Ok(png) = t1.1 {
        lemma_found_grows(grim, "grim"@, past(log), past(t1.0));
        let shot = shoot_full_spec(grim, png, t1.0);
        let shot_more = shoot_full_spec(grim, png, more(t1.0, x));
        lemma_shoot_full(grim, png, t1.0, x);
        lemma_regular_sound(t1.0, x, shot, shot_more, true);
        lemma_kept(png, t1.0, x, shot, shot_more);
    }
    lemma_glue(log, x, s1, t1, full_into(grim, log), full_into(grim, more(log, x)), false);
}

proof fn lemma_capture_full(log: Log, x: Reply)
    requires
        sound(log),
    ensures
        regular(log, x, capture_full_spec(log), capture_full_spec(more(log, x)), false),
{
    let s1 = which_spec("grim"@, log);
    let t1 = which_spec("grim"@, more(log, x));
    lemma_which("grim"@, log, x);
    lemma_regular_sound(log, x, s1, t1, true);
    if let Ok(grim) = s1.1 {
        lemma_full_into(grim, s1.0, x);
    } else if let Ok(grim) = t1.1 {
        lemma_full_into(grim, t1.0, x);
    }
    lemma_glue(log, x, s1, t1, capture_full_spec(log), capture_full_spec(more(log, x)), false);
}

proof fn lemma_sized_by(identify: Seq<u8>, path: Seq<char>, log: Log, x: Reply)
    requires
        sound(log),
        found(identify, "identify"@, past(log)),
    ensures
        regular(
            log,
            x,
            sized_by(identify, path, log),
            sized_by(identify, path, more(log, x)),
            true,
        ),
{
    let args = size_args(path);
    lemma_run(log, identify, args, true, true, x);
    lemma_finish(
        log,
        x,
        put_run(log, identify, args, true, true),
        put_run(more(log, x), identify, args, true, true),
        sized_by(identify, path, log),
        sized_by(identify, path, more(log, x)),
        true,
    );
}

proof fn lemma_image_size(path: Seq<char>, log: Log, x: Reply)
    requires
        sound(log),
    ensures
        regular(log, x, image_size_spec(path, log), image_size_spec(path, more(log, x)), true),
{
    let s1 = which_spec("identify"@, log);
    let t1 = which_spec("identify"@, more(log, x));
    lemma_which("identify"@, log, x);
    lemma_regular_sound(log, x, s1, t1, true);
    if let Ok(identify) = s1.1 {
        lemma_sized_by(identify, path, s1.0, x);
    } else if let Ok(identify) = t1.1 {
        lemma_sized_by(identify, path, t1.0, x);
    }
    lemma_glue(
        log,
        x,
        s1,
        t1,
        image_size_spec(path, log),
        image_size_spec(path, more(log, x)),
        true,
    );
}

proof fn lemma_prepared_at(magick: Seq<u8>, args: Seq<Seq<char>>, log: Log, x: Reply)
    requires
        sound(log),
        known_command(magick, args, past(log)),
    ensures
        regular(
            log,
            x,
            prepared_at(magick, args, log),
            prepared_at(magick, args, more(log, x)),
            true,
        ),
{
    lemma_run(log, magick, args, true, false, x);
    lemma_finish(
        log,
        x,
        put_run(log, magick, args, true, false),
        put_run(more(log, x), magick, args, true, false),
        prepared_at(magick, args, log),
        prepared_at(magick, args, more(log, x)),
        true,
    );
}

pub(crate) proof fn lemma_prepare(
    magick: Seq<u8>,
    src: Seq<char>,
    png: TempFileView,
    log: Log,
    x: Reply,
)
    requires
        sound(log),
        found(magick, "magick"@, past(log)),
    ensures
        regular(
            log,
            x,
            prepare_spec(magick, src, png, log),
            prepare_spec(magick, src, png, more(log, x)),
            true,
        ),
{
    let s1 = image_size_spec(src, log);
    let t1 = image_size_spec(src, more(log, x));
    lemma_past_more(log, x);
    lemma_image_size(src, log, x);
    lemma_regular_sound(log, x, s1, t1, true);
    if let Ok((w, h)) = s1.1 {
        lemma_found_grows(magick, "magick"@, past(log), past(s1.0));
        lemma_prepared_at(magick, magick_args(src, w, h, utf8_lossy(png.path)), s1.0, x);
    } else if let Ok((w, h)) = t1.1 {
        lemma_found_grows(magick, "magick"@, past(log), past(t1.0));
        lemma_prepared_at(magick, magick_args(src, w, h, utf8_lossy(png.path)), t1.0, x);
    }
    lemma_glue(
        log,
        x,
        s1,
        t1,
        prepare_spec(magick, src, png, log),
        prepare_spec(magick, src, png, more(log, x)),
        true,
    );
}

proof fn lemma_prepared_into(magick: Seq<u8>, src: Seq<char>, log: Log, x: Reply)
    requires
        sound(log),
        found(magick, "magick"@, past(log)),
    ensures
        regular(
            log,
            x,
            prepared_into(magick, src, log),
            prepared_into(magick, src, more(log, x)),
            false,
        ),
{
    let s1 = new_temp_spec("proc"@, "png"@, log);
    let t1 = new_temp_spec("proc"@, "png"@, more(log, x));
    lemma_past_more(log, x);
    lemma_new_temp("proc"@, "png"@, log, x);
    lemma_regular_sound(log, x, s1, t1, false);
    if let Ok(png) = s1.1 {
        lemma_found_grows(magick, "magick"@, past(log), past(s1.0));
        let done = prepare_spec(magick, src, png, s1.0);
        let done_more = prepare_spec(magick, src, png, more(s1.0, x));
        lemma_prepare(magick, src, png, s1.0, x);
        lemma_regular_sound(s1.0, x, done, done_more, true);
        lemma_kept(png, s1.0, x, done, done_more);
    } else if let Ok(png) = t1.1 {
        lemma_found_grows(magick, "magick"@, past(log), past(t1.0));
        let done = prepare_spec(magick, src, png, t1.0);
        let done_more = prepare_spec(magick, src, png, more(t1.0, x));
        lemma_prepare(magick, src, png, t1.0, x);
        lemma_regular_sound(t1.0, x, done, done_more, true);
        lemma_kept(png, t1.0, x, done, done_more);
    }
    lemma_glue(
        log,
        x,
        s1,
        t1,
        prepared_into(magick, src, log),
        prepared_into(magick, src, more(log, x)),
        false,
    );
}

pub(crate) proof fn lemma_preprocess(src: Seq<char>, log: Log, x: Reply)
    requires
        sound(log),
    ensures
        regular(log, x, preprocess_spec(src, log), preprocess_spec(src, more(log, x)), false),
{
    let s1 = which_spec("magick"@, log);
    let t1 = which_spec("magick"@, more(log, x));
    lemma_which("magick"@, log, x);
    lemma_regular_sound(log, x, s1, t1, true);
    if let Ok(magick) = s1.1 {
        lemma_prepared_into(magick, src, s1.0, x);
    } else if let Ok(magick) = t1.1 {
        lemma_prepared_into(magick, src, t1.0, x);
    }
    lemma_glue(
        log,
        x,
        s1,
        t1,
        preprocess_spec(src, log),
        preprocess_spec(src, more(log, x)),
        false,
    );
}

proof fn lemma_recognized(tesseract: Seq<u8>, path: Seq<char>, lang: Seq<char>, log: Log, x: Reply)
    requires
        sound(log),
        found(tesseract, "tesseract"@, past(log)),
    ensures
        regular(
            log,
            x,
            recognized(tesseract, path, lang, log),
            recognized(tesseract, path, lang, more(log, x)),
            true,
        ),
{
    lemma_tool("tesseract"@, tesseract, read_args(path, lang), log, x);
    lemma_finish(
        log,
        x,
        tool_spec("tesseract"@, tesseract, read_args(path, lang), log),
        tool_spec("tesseract"@, tesseract, read_args(path, lang), more(log, x)),
        recognized(tesseract, path, lang, log),
        recognized(tesseract, path, lang, more(log, x)),
        true,
    );
}

proof fn lemma_ocr_image(path: Seq<char>, lang: Seq<char>, log: Log, x: Reply)
    requires
        sound(log),
    ensures
        regular(
            log,
            x,
            ocr_image_spec(path, lang, log),
            ocr_image_spec(path, lang, more(log, x)),
            true,
        ),
{
    let s1 = which_spec("tesseract"@, log);
    let t1 = which_spec("tesseract"@, more(log, x));
    lemma_which("tesseract"@, log, x);
    lemma_regular_sound(log, x, s1, t1, true);
    if let Ok(tesseract) = s1.1 {
        lemma_recognized(tesseract, path, lang, s1.0, x);
    } else if let Ok(tesseract) = t1.1 {
        lemma_recognized(tesseract, path, lang, t1.0, x);
    }
    lemma_glue(
        log,
        x,
        s1,
        t1,
        ocr_image_spec(path, lang, log),
        ocr_image_spec(path, lang, more(log, x)),
        true,
    );
}

proof fn lemma_rated(
    tool: Option<Seq<u8>>,
    path: Seq<char>,
    lang: Seq<char>,
    log: Log,
    x: Reply,
)
    requires
        sound(log),
        tool matches Some(tesseract) ==> found(tesseract, "tesseract"@, past(log)),
    ensures
        regular(log, x, rated(tool, path, lang, log), rated(tool, path, lang, more(log, x)), true),
{
    match tool {
        Some(tesseract) => {
            let args = read_args(path, lang).push("tsv"@);
            lemma_run(log, tesseract, args, true, true, x);
            lemma_finish(
                log,
                x,
                put_run(log, tesseract, args, true, true),
                put_run(more(log, x), tesseract, args, true, true),
                rated(tool, path, lang, log),
                rated(tool, path, lang, more(log, x)),
                true,
            );
        },
        None => {
            lemma_still(log, x, rated(tool, path, lang, log).1, true);
        },
    }
}

proof fn lemma_ocr_confidence(path: Seq<char>, lang: Seq<char>, log: Log, x: Reply)
    requires
        sound(log),
    ensures
        regular(
            log,
            x,
            ocr_confidence_spec(path, lang, log),
            ocr_confidence_spec(path, lang, more(log, x)),
            true,
        ),
{
    let s1 = tolerated(which_spec("tesseract"@, log));
    let t1 = tolerated(which_spec("tesseract"@, more(log, x)));
    lemma_which("tesseract"@, log, x);
    lemma_tolerated(
        log,
        x,
        which_spec("tesseract"@, log),
        which_spec("tesseract"@, more(log, x)),
        true,
    );
    lemma_regular_sound(log, x, s1, t1, true);
    if let Ok(tool) = s1.1 {
        lemma_rated(tool, path, lang, s1.0, x);
    } else if let Ok(tool) = t1.1 {
        lemma_rated(tool, path, lang, t1.0, x);
    }
    lemma_glue(
        log,
        x,
        s1,
        t1,
        ocr_confidence_spec(path, lang, log),
        ocr_confidence_spec(path, lang, more(log, x)),
        true,
    );
}

proof fn lemma_piped(wl_copy: Seq<u8>, text: Seq<char>, log: Log, x: Reply)
    requires
        sound(log),
        found(wl_copy, "wl-copy"@, past(log)),
    ensures
        regular(log, x, piped(wl_copy, text, log), piped(wl_copy, text, more(log, x)), true),
{
    lemma_pipe(log, wl_copy, text, x);
    lemma_finish(
        log,
        x,
        put_pipe(log, wl_copy, text),
        put_pipe(more(log, x), wl_copy, text),
        piped(wl_copy, text, log),
        piped(wl_copy, text, more(log, x)),
        true,
    );
}

proof fn lemma_copy(text: Seq<char>, log: Log, x: Reply)
    requires
        sound(log),
    ensures
        regular(log, x, copy_spec(text, log), copy_spec(text, more(log, x)), true),
{
    let s1 = which_spec("wl-copy"@, log);
    let t1 = which_spec("wl-copy"@, more(log, x));
    lemma_which("wl-copy"@, log, x);
    lemma_regular_sound(log, x, s1, t1, true);
    if let Ok(wl_copy) = s1.1 {
        lemma_piped(wl_copy, text, s1.0, x);
    } else if let Ok(wl_copy) = t1.1 {
        lemma_piped(wl_copy, text, t1.0, x);
    }
    lemma_glue(log, x, s1, t1, copy_spec(text, log), copy_spec(text, more(log, x)), true);
}

proof fn lemma_offer(wanted: bool, text: Seq<char>, log: Log, x: Reply)
    requires
        sound(log),
    ensures
        regular(
            log,
            x,
            offer_spec(wanted, text, log),
            offer_spec(wanted, text, more(log, x)),
            true,
        ),
{
    if wanted && trimmed(text).len() > 0 {
        let s = copy_spec(text, log);
        let t = copy_spec(text, more(log, x));
        lemma_copy(text, log, x);
        lemma_tolerated(log, x, s, t, true);
        lemma_finish(
            log,
            x,
            tolerated(s),
            tolerated(t),
            offer_spec(wanted, text, log),
            offer_spec(wanted, text, more(log, x)),
            true,
        );
    } else {
        lemma_still(log, x, Ok::<bool, StopView>(false), true);
    }
}

proof fn lemma_offered(
    wanted: bool,
    lang: Seq<char>,
    source: Seq<char>,
    text: Seq<char>,
    confidence: Seq<Seq<char>>,
    log: Log, x: Reply)
    requires
        sound(log),
    ensures
        regular(
            log,
            x,
            offered(wanted, lang, source, text, confidence, log),
            offered(wanted, lang, source, text, confidence, more(log, x)),
            true,
        ),
{
    lemma_offer(wanted, text, log, x);
    lemma_finish(
        log,
        x,
        offer_spec(wanted, text, log),
        offer_spec(wanted, text, more(log, x)),
        offered(wanted, lang, source, text, confidence, log),
        offered(wanted, lang, source, text, confidence, more(log, x)),
        true,
    );
}

proof fn lemma_rated_and_offered(
    wanted: bool,
    lang: Seq<char>,
    source: Seq<char>,
    input: Seq<char>,
    text: Seq<char>,
    log: Log, x: Reply)
    requires
        sound(log),
    ensures
        regular(
            log,
            x,
            rated_and_offered(wanted, lang, source, input, text, log),
            rated_and_offered(wanted, lang, source, input, text, more(log, x)),
            true,
        ),
{
    let s1 = ocr_confidence_spec(input, lang, log);
    let t1 = ocr_confidence_spec(input, lang, more(log, x));
    lemma_ocr_confidence(input, lang, log, x);
    lemma_regular_sound(log, x, s1, t1, true);
    if let Ok(confidence) = s1.1 {
        lemma_offered(wanted, lang, source, text, confidence, s1.0, x);
    } else if let Ok(confidence) = t1.1 {
        lemma_offered(wanted, lang, source, text, confidence, t1.0, x);
    }
    lemma_glue(
        log,
        x,
        s1,
        t1,
        rated_and_offered(wanted, lang, source, input, text, log),
        rated_and_offered(wanted, lang, source, input, text, more(log, x)),
        true,
    );
}

pub(crate) proof fn lemma_read(
    wanted: bool,
    lang: Seq<char>,
    source: Seq<char>,
    input: Seq<char>,
    log: Log, x: Reply)
    requires
        sound(log),
    ensures
        regular(
            log,
            x,
            read_spec(wanted, lang, source, input, log),
            read_spec(wanted, lang, source, input, more(log, x)),
            true,
        ),
{
    let s1 = ocr_image_spec(input, lang, log);
    let t1 = ocr_image_spec(input, lang, more(log, x));
    lemma_ocr_image(input, lang, log, x);
    lemma_regular_sound(log, x, s1, t1, true);
    if let Ok(text) = s1.1 {
        lemma_rated_and_offered(wanted, lang, source, input, text, s1.0, x);
    } else if let Ok(text) = t1.1 {
        lemma_rated_and_offered(wanted, lang, source, input, text, t1.0, x);
    }
    lemma_glue(
        log,
        x,
        s1,
        t1,
        read_spec(wanted, lang, source, input, log),
        read_spec(wanted, lang, source, input, more(log, x)),
        true,
    );
}

proof fn lemma_read_prepared(
    wanted: bool,
    lang: Seq<char>,
    source: Seq<char>,
    done: Option<TempFileView>,
    log: Log,
    x: Reply,
)
    requires
        sound(log),
    ensures
        regular(
            log,
            x,
            read_prepared_spec(wanted, lang, source, done, log),
            read_prepared_spec(wanted, lang, source, done, more(log, x)),
            false,
        ),
{
    let input = match done {
        Some(prepared) => utf8_lossy(prepared.path),
        None => source,
    };
    let s = read_spec(wanted, lang, "screen"@, input, log);
    let t = read_spec(wanted, lang, "screen"@, input, more(log, x));
    lemma_read(wanted, lang, "screen"@, input, log, x);
    lemma_regular_sound(log, x, s, t, true);
    if let Some(prepared) = done {
        lemma_released(prepared, log, x, s, t);
    }
}

proof fn lemma_read_shot(wanted: bool, lang: Seq<char>, source: Seq<char>, log: Log, x: Reply)
    requires
        sound(log),
    ensures
        regular(
            log,
            x,
            read_shot(wanted, lang, source, log),
            read_shot(wanted, lang, source, more(log, x)),
            false,
        ),
{
    let s1 = tolerated(preprocess_spec(source, log));
    let t1 = tolerated(preprocess_spec(source, more(log, x)));
    lemma_preprocess(source, log, x);
    lemma_tolerated(
        log,
        x,
        preprocess_spec(source, log),
        preprocess_spec(source, more(log, x)),
        false,
    );
    lemma_regular_sound(log, x, s1, t1, false);
    if let Ok(done) = s1.1 {
        lemma_read_prepared(wanted, lang, source, done, s1.0, x);
    } else if let Ok(done) = t1.1 {
        lemma_read_prepared(wanted, lang, source, done, t1.0, x);
    }
    lemma_glue(
        log,
        x,
        s1,
        t1,
        read_shot(wanted, lang, source, log),
        read_shot(wanted, lang, source, more(log, x)),
        false,
    );
}

proof fn lemma_read_capture(
    wanted: bool,
    lang: Seq<char>,
    shot: TempFileView,
    log: Log,
    x: Reply,
)
    requires
        sound(log),
    ensures
        regular(
            log,
            x,
            read_capture_spec(wanted, lang, shot, log),
            read_capture_spec(wanted, lang, shot, more(log, x)),
            false,
        ),
{
    let source = utf8_lossy(shot.path);
    lemma_read_shot(wanted, lang, source, log, x);
    lemma_released(
        shot,
        log,
        x,
        read_shot(wanted, lang, source, log),
        read_shot(wanted, lang, source, more(log, x)),
    );
    assert(read_capture_spec(wanted, lang, shot, log) == released(
        shot,
        read_shot(wanted, lang, source, log),
    ));
    assert(read_capture_spec(wanted, lang, shot, more(log, x)) == released(
        shot,
        read_shot(wanted, lang, source, more(log, x)),
    ));
}

pub(crate) proof fn lemma_read_file(
    wanted: bool,
    lang: Seq<char>,
    path: Seq<char>,
    log: Log,
    x: Reply,
)
    requires
        sound(log),
    ensures
        regular(
            log,
            x,
            read_file_spec(wanted, lang, path, log),
            read_file_spec(wanted, lang, path, more(log, x)),
            true,
        ),
{
    let request = RequestView::IsFile { path: encode_utf8(path) };
    let s1 = put_flag(log, request);
    let t1 = put_flag(more(log, x), request);
    lemma_flag(log, request, x);
    lemma_regular_sound(log, x, s1, t1, true);
    if let Ok(is_file) = s1.1 {
        if is_file {
            lemma_read(wanted, lang, path, path, s1.0, x);
        } else {
            lemma_still(s1.0, x, read_file_spec(wanted, lang, path, log).1, true);
        }
    } else if let Ok(is_file) = t1.1 {
        if is_file {
            lemma_read(wanted, lang, path, path, t1.0, x);
        } else {
            lemma_still(t1.0, x, read_file_spec(wanted, lang, path, more(log, x)).1, true);
        }
    }
    lemma_glue(
        log,
        x,
        s1,
        t1,
        read_file_spec(wanted, lang, path, log),
        read_file_spec(wanted, lang, path, more(log, x)),
        true,
    );
}

pub(crate) proof fn lemma_capture(region: bool, log: Log, x: Reply)
    requires
        sound(log),
    ensures
        regular(log, x, capture_spec(region, log), capture_spec(region, more(log, x)), false),
{
    if region {
        lemma_capture_region(log, x);
    } else {
        lemma_capture_full(log, x);
    }
}

proof fn lemma_read_screen(wanted: bool, region: bool, lang: Seq<char>, log: Log, x: Reply)
    requires
        sound(log),
    ensures
        regular(
            log,
            x,
            read_screen(wanted, region, lang, log),
            read_screen(wanted, region, lang, more(log, x)),
            false,
        ),
{
    let s1 = capture_spec(region, log);
    let t1 = capture_spec(region, more(log, x));
    lemma_capture(region, log, x);
    lemma_regular_sound(log, x, s1, t1, false);
    if let Ok(shot) = s1.1 {
        lemma_read_capture(wanted, lang, shot, s1.0, x);
    } else if let Ok(shot) = t1.1 {
        lemma_read_capture(wanted, lang, shot, t1.0, x);
    }
    lemma_glue(
        log,
        x,
        s1,
        t1,
        read_screen(wanted, region, lang, log),
        read_screen(wanted, region, lang, more(log, x)),
        false,
    );
}

pub(crate) proof fn lemma_run_ocr(opts: OptionsView, log: Log, x: Reply)
    requires
        sound(log),
    ensures
        regular(log, x, run_ocr_spec(opts, log), run_ocr_spec(opts, more(log, x)), false),
{
    let s1 = resolve_lang_spec(opts.lang, log);
    let t1 = resolve_lang_spec(opts.lang, more(log, x));
    lemma_resolve_lang(opts.lang, log, x);
    lemma_regular_sound(log, x, s1, t1, true);
    if let Ok(lang) = s1.1 {
        match opts.file {
            Some(path) => {
                let s = read_file_spec(opts.copy, lang, path, s1.0);
                let t = read_file_spec(opts.copy, lang, path, more(s1.0, x));
                lemma_read_file(opts.copy, lang, path, s1.0, x);
                lemma_regular_sound(s1.0, x, s, t, true);
            },
            None => {
                lemma_read_screen(opts.copy, opts.region, lang, s1.0, x);
            },
        }
    } else if let Ok(lang) = t1.1 {
        match opts.file {
            Some(path) => {
                let s = read_file_spec(opts.copy, lang, path, t1.0);
                let t = read_file_spec(opts.copy, lang, path, more(t1.0, x));
                lemma_read_file(opts.copy, lang, path, t1.0, x);
                lemma_regular_sound(t1.0, x, s, t, true);
            },
            None => {
                lemma_read_screen(opts.copy, opts.region, lang, t1.0, x);
            },
        }
    }
    lemma_glue(log, x, s1, t1, run_ocr_spec(opts, log), run_ocr_spec(opts, more(log, x)), false);
}

proof fn lemma_show(opts: OptionsView, log: Log, x: Reply)
    requires
        sound(log),
    ensures
        regular(log, x, show_spec(opts, log), show_spec(opts, more(log, x)), false),
{
    lemma_run_ocr(opts, log, x);
    lemma_finish(
        log,
        x,
        run_ocr_spec(opts, log),
        run_ocr_spec(opts, more(log, x)),
        show_spec(opts, log),
        show_spec(opts, more(log, x)),
        false,
    );
}

proof fn lemma_copied_from(text: Seq<char>, log: Log, x: Reply)
    requires
        sound(log),
    ensures
        regular(log, x, copied_from(text, log), copied_from(text, more(log, x)), true),
{
    if trimmed(text).len() == 0 {
        lemma_still(log, x, copied_from(text, log).1, true);
    } else {
        lemma_copy(text, log, x);
        lemma_finish(
            log,
            x,
            copy_spec(text, log),
            copy_spec(text, more(log, x)),
            copied_from(text, log),
            copied_from(text, more(log, x)),
            true,
        );
    }
}

pub(crate) proof fn lemma_copy_input(log: Log, x: Reply)
    requires
        sound(log),
    ensures
        regular(log, x, copy_input(log), copy_input(more(log, x)), true),
{
    let s1 = put_input(log);
    let t1 = put_input(more(log, x));
    lemma_input(log, x);
    lemma_regular_sound(log, x, s1, t1, true);
    if let Ok(text) = s1.1 {
        lemma_copied_from(text, s1.0, x);
    } else if let Ok(text) = t1.1 {
        lemma_copied_from(text, t1.0, x);
    }
    lemma_glue(log, x, s1, t1, copy_input(log), copy_input(more(log, x)), true);
}

pub(crate) proof fn lemma_cmd_langs(log: Log, x: Reply)
    requires
        sound(log),
    ensures
        regular(log, x, cmd_langs_spec(log), cmd_langs_spec(more(log, x)), true),
{
    lemma_list_langs(log, x);
    lemma_finish(
        log,
        x,
        list_langs_spec(log),
        list_langs_spec(more(log, x)),
        cmd_langs_spec(log),
        cmd_langs_spec(more(log, x)),
        true,
    );
}

pub(crate) proof fn lemma_cmd_lang(log: Log, x: Reply)
    requires
        sound(log),
    ensures
        regular(log, x, cmd_lang_spec(log), cmd_lang_spec(more(log, x)), true),
{
    lemma_detect_lang(log, x);
    lemma_finish(
        log,
        x,
        detect_lang_spec(log),
        detect_lang_spec(more(log, x)),
        cmd_lang_spec(log),
        cmd_lang_spec(more(log, x)),
        true,
    );
}

/// Every command line.
pub(crate) proof fn lemma_dispatch(args: Seq<Seq<char>>, log: Log, x: Reply)
    requires
        sound(log),
    ensures
        regular(log, x, dispatch_spec(args, log), dispatch_spec(args, more(log, x)), false),
{
    let s = dispatch_spec(args, log);
    let t = dispatch_spec(args, more(log, x));
    lemma_cmd_langs(log, x);
    lemma_cmd_lang(log, x);
    lemma_copy_input(log, x);
    lemma_regular_sound(log, x, cmd_langs_spec(log), cmd_langs_spec(more(log, x)), true);
    lemma_regular_sound(log, x, cmd_lang_spec(log), cmd_lang_spec(more(log, x)), true);
    lemma_regular_sound(log, x, copy_input(log), copy_input(more(log, x)), true);
    if pending(s.1) is None && s.1 != Err::<OutputView, StopView>(StopView::Mismatch) && s.0 == log
        && t == (more(log, x), s.1) {
        lemma_still(log, x, s.1, false);
    }
    if let Ok(p) = parsed(args.skip(1)) {
        lemma_show(OptionsView { region: true, ..p.opts }, log, x);
        lemma_show(OptionsView { region: false, ..p.opts }, log, x);
        if p.positional.len() > 0 {
            lemma_show(OptionsView { file: Some(p.positional[0]), ..p.opts }, log, x);
        }
    } else {
        lemma_parsed_stop(
            args.skip(1),
            0,
            Parsed { opts: default_options(), positional: Seq::empty() },
        );
    }
}

proof fn lemma_parsed_stop(raw: Seq<Seq<char>>, i: int, so_far: Parsed)
    ensures
        pending(parsed_from(raw, i, so_far)) is None,
        parsed_from(raw, i, so_far) != Err::<Parsed, StopView>(StopView::Mismatch),
    decreases raw.len() - i,
{
    let opts = so_far.opts;
    if 0 <= i < raw.len() {
        if raw[i] == "--lang"@ {
            if i + 1 < raw.len() {
                let opts = OptionsView { lang: raw[i + 1], ..opts };
                lemma_parsed_stop(raw, i + 2, Parsed { opts, ..so_far });
            }
        } else {
            lemma_parsed_stop(
                raw,
                i + 1,
                Parsed { opts: OptionsView { copy: true, ..opts }, ..so_far },
            );
            lemma_parsed_stop(
                raw,
                i + 1,
                Parsed { opts: OptionsView { json: true, ..opts }, ..so_far },
            );
            lemma_parsed_stop(
                raw,
                i + 1,
                Parsed { positional: so_far.positional.push(raw[i]), ..so_far },
            );
        }
    }
}

} // verus!
