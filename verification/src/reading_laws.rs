//! What holds of a reading: where its text, its confidence and its copy come from.

use vstd::prelude::*;
use vstd::utf8::encode_utf8;

use crate::engine::{
    capture_spec, confidences, copy_spec, ocr_confidence_spec, ocr_image_spec, offer_spec,
    preprocess_spec, read_capture_spec, read_shot, read_spec, run_ocr_spec, OcrResultView,
};
use crate::host::{put_dirs, put_flag, Log, Piping, Reply, RequestView, StopView};
use crate::image_laws::{complaint, law_capture_full, law_capture_region};
use crate::lang::{detect_layout_spec, list_langs_spec, resolve_lang_spec};
use crate::lang_laws::{law_active_layout, law_settled_lang};
use crate::options::OptionsView;
use crate::temp_laws::{law_places, law_release, lemma_attempts_grow};
use crate::tempfile::{new_temp_spec, released, temp_dirs_spec, Naming, TempFileView};
use crate::text::{is_space, trimmed, trimmed_end};
use crate::text_laws::{blank, law_trim_end_loses_space_only, law_trim_loses_space_only};
use crate::tidy::ends_here;
use crate::tool_laws::{
    end_of, fed, grows, law_search, lemma_grows_on, lemma_missed_grows, lemma_picked_grows, missed,
    picked, ran, said,
};
use crate::tools::{first_file, which_spec};
use crate::unicode::utf8_lossy;

verus! {

/// Whether tesseract, as the search path has it, was run after request `since` to
/// read the image `input` in `lang`, and printed `text`.
pub open spec fn recognized_in(
    text: Seq<char>,
    lang: Seq<char>,
    input: Seq<char>,
    since: int,
    log: Log,
) -> bool {
    exists|tesseract: Seq<u8>, from: int, i: int|
        since <= from && #[trigger] picked("tesseract"@, tesseract, from, i, log) && ran(
            tesseract,
            seq![input, "stdout"@, "-l"@, lang, "--psm"@, "6"@],
            true,
            true,
            i,
            log,
        ) && said(end_of(i, log)) == Some(text)
}

/// Whether `fields` are the confidences of the table that tesseract printed for
/// the image `input` in `lang`, after request `since`. There are none where it was
/// not found, could not be run or ended without success.
pub open spec fn rated_in(
    fields: Seq<Seq<char>>,
    lang: Seq<char>,
    input: Seq<char>,
    since: int,
    log: Log,
) -> bool {
    ||| exists|tesseract: Seq<u8>, from: int, i: int|
        since <= from && #[trigger] picked("tesseract"@, tesseract, from, i, log) && ran(
            tesseract,
            seq![input, "stdout"@, "-l"@, lang, "--psm"@, "6"@, "tsv"@],
            true,
            true,
            i,
            log,
        ) && fields == (match said(end_of(i, log)) {
            Some(table) => confidences(table),
            None => Seq::empty(),
        })
    ||| exists|from: int, to: int|
        since <= from && #[trigger] missed("tesseract"@, from, to, log) && fields == Seq::<
            Seq<char>,
        >::empty()
}

/// Whether the whole of `text` was handed to wl-copy, as the search path has it,
/// after request `since`, and wl-copy ended with success.
pub open spec fn copied_in(text: Seq<char>, since: int, log: Log) -> bool {
    exists|wl_copy: Seq<u8>, from: int, i: int|
        since <= from && #[trigger] picked("wl-copy"@, wl_copy, from, i, log) && fed(
            wl_copy,
            text,
            i,
            log,
        ) && (log.replies[i]->Piped_0 matches Piping::Exited { success, .. } && success)
}

/// What is said of a text that could not be handed to wl-copy.
pub open spec fn refusal(piping: Piping) -> Seq<char> {
    match piping {
        Piping::NotStarted(reason) => "cannot run "@ + "wl-copy"@ + ": "@ + reason@,
        Piping::NoInput => "wl-copy stdin unavailable"@,
        Piping::NotWritten(reason) => "cannot write to wl-copy: "@ + reason@,
        Piping::NotAwaited(reason) => "wl-copy failed: "@ + reason@,
        Piping::Exited { status, .. } => "wl-copy exited with "@ + status@,
    }
}

/// Whether wl-copy was not found after request `since`, or was handed the whole of
/// `text` and did not end with success; `message` says so.
pub open spec fn uncopied_in(text: Seq<char>, message: Seq<char>, since: int, log: Log) -> bool {
    ||| exists|from: int, to: int|
        since <= from && #[trigger] missed("wl-copy"@, from, to, log) && message
            == "required tool not found on PATH: "@ + "wl-copy"@
    ||| exists|wl_copy: Seq<u8>, from: int, i: int|
        since <= from && #[trigger] picked("wl-copy"@, wl_copy, from, i, log) && fed(
            wl_copy,
            text,
            i,
            log,
        ) && !(log.replies[i]->Piped_0 matches Piping::Exited { success, .. } && success)
            && message == refusal(log.replies[i]->Piped_0)
}

/// Whether nothing was handed to any program between `log` and `next`.
pub open spec fn spares(log: Log, next: Log) -> bool {
    forall|i: int| log.asked.len() <= i < next.asked.len() ==> !(#[trigger] next.asked[i] is Pipe)
}

/// Whether `text` is `whole` without the white space at its end.
pub open spec fn all_but_space(text: Seq<char>, whole: Seq<char>) -> bool {
    &&& text.is_prefix_of(whole)
    &&& blank(whole.skip(text.len() as int))
    &&& text.len() > 0 ==> !is_space(text.last())
}

proof fn lemma_recognized_grows(
    text: Seq<char>,
    lang: Seq<char>,
    input: Seq<char>,
    since: int,
    log: Log,
    next: Log,
)
    requires
        recognized_in(text, lang, input, since, log),
        grows(log, next),
    ensures
        recognized_in(text, lang, input, since, next),
{
    let args = seq![input, "stdout"@, "-l"@, lang, "--psm"@, "6"@];
    let (tesseract, from, i) = choose|tesseract: Seq<u8>, from: int, i: int|
        since <= from && #[trigger] picked("tesseract"@, tesseract, from, i, log) && ran(
            tesseract,
            seq![input, "stdout"@, "-l"@, lang, "--psm"@, "6"@],
            true,
            true,
            i,
            log,
        ) && said(end_of(i, log)) == Some(text);
    lemma_picked_grows("tesseract"@, tesseract, from, i, log, next);
    assert(next.asked[i] == log.asked[i]);
    assert(ran(tesseract, args, true, true, i, next));
}

proof fn lemma_rated_grows(
    fields: Seq<Seq<char>>,
    lang: Seq<char>,
    input: Seq<char>,
    since: int,
    log: Log,
    next: Log,
)
    requires
        rated_in(fields, lang, input, since, log),
        grows(log, next),
    ensures
        rated_in(fields, lang, input, since, next),
{
    if exists|from: int, to: int|
        since <= from && #[trigger] missed("tesseract"@, from, to, log) && fields == Seq::<
            Seq<char>,
        >::empty() {
        let (from, to) = choose|from: int, to: int|
            since <= from && #[trigger] missed("tesseract"@, from, to, log) && fields == Seq::<
                Seq<char>,
            >::empty();
        lemma_missed_grows("tesseract"@, from, to, log, next);
    } else {
        let (tesseract, from, i) = choose|tesseract: Seq<u8>, from: int, i: int|
            since <= from && #[trigger] picked("tesseract"@, tesseract, from, i, log) && ran(
                tesseract,
                seq![input, "stdout"@, "-l"@, lang, "--psm"@, "6"@, "tsv"@],
                true,
                true,
                i,
                log,
            ) && fields == (match said(end_of(i, log)) {
                Some(table) => confidences(table),
                None => Seq::empty(),
            });
        lemma_picked_grows("tesseract"@, tesseract, from, i, log, next);
        assert(next.asked[i] == log.asked[i]);
    }
}

proof fn lemma_copied_grows(text: Seq<char>, since: int, log: Log, next: Log)
    requires
        copied_in(text, since, log),
        grows(log, next),
    ensures
        copied_in(text, since, next),
{
    let (wl_copy, from, i) = choose|wl_copy: Seq<u8>, from: int, i: int|
        since <= from && #[trigger] picked("wl-copy"@, wl_copy, from, i, log) && fed(
            wl_copy,
            text,
            i,
            log,
        ) && (log.replies[i]->Piped_0 matches Piping::Exited { success, .. } && success);
    lemma_picked_grows("wl-copy"@, wl_copy, from, i, log, next);
    assert(next.asked[i] == log.asked[i]);
}

proof fn lemma_uncopied_grows(
    text: Seq<char>,
    message: Seq<char>,
    since: int,
    log: Log,
    next: Log,
)
    requires
        uncopied_in(text, message, since, log),
        grows(log, next),
    ensures
        uncopied_in(text, message, since, next),
{
    if exists|from: int, to: int|
        since <= from && #[trigger] missed("wl-copy"@, from, to, log) && message
            == "required tool not found on PATH: "@ + "wl-copy"@ {
        let (from, to) = choose|from: int, to: int|
            since <= from && #[trigger] missed("wl-copy"@, from, to, log) && message
                == "required tool not found on PATH: "@ + "wl-copy"@;
        lemma_missed_grows("wl-copy"@, from, to, log, next);
    } else {
        let (wl_copy, from, i) = choose|wl_copy: Seq<u8>, from: int, i: int|
            since <= from && #[trigger] picked("wl-copy"@, wl_copy, from, i, log) && fed(
                wl_copy,
                text,
                i,
                log,
            ) && !(log.replies[i]->Piped_0 matches Piping::Exited { success, .. } && success)
                && message == refusal(log.replies[i]->Piped_0);
        lemma_picked_grows("wl-copy"@, wl_copy, from, i, log, next);
        assert(next.asked[i] == log.asked[i]);
    }
}

/// Reading an image gives all that tesseract printed for it. It fails only where
/// tesseract is missing, cannot be run or ends without success, and says so.
pub proof fn law_recognition(path: Seq<char>, lang: Seq<char>, log: Log)
    ensures
        ({
            let (next, r) = ocr_image_spec(path, lang, log);
            let (l1, tesseract) = which_spec("tesseract"@, log);
            let m = l1.asked.len() as int;
            &&& grows(log, next)
            &&& r matches Ok(text) ==> recognized_in(
                text,
                lang,
                path,
                log.asked.len() as int,
                next,
            ) && next.asked.len() == m + 1
            &&& tesseract is Err ==> (next, r) == (
                l1,
                Err::<Seq<char>, StopView>(tesseract->Err_0),
            )
            &&& tesseract is Ok ==> (r matches Err(StopView::Fail(message)) ==> {
                &&& next.asked.len() == m + 1
                &&& ran(
                    tesseract->Ok_0,
                    seq![path, "stdout"@, "-l"@, lang, "--psm"@, "6"@],
                    true,
                    true,
                    m,
                    next,
                )
                &&& said(end_of(m, next)) is None
                &&& message == complaint("tesseract"@, end_of(m, next))
            })
        }),
{
    law_search("tesseract"@, log);
    let (l1, tesseract) = which_spec("tesseract"@, log);
    if let Ok(program) = tesseract {
        let (next, r) = ocr_image_spec(path, lang, log);
        let n = log.asked.len() as int;
        let m = l1.asked.len() as int;
        assert(grows(l1, next));
        lemma_grows_on(log, l1, next);
        lemma_picked_grows("tesseract"@, program, n, m, l1, next);
        if r is Ok {
            assert(ran(
                program,
                seq![path, "stdout"@, "-l"@, lang, "--psm"@, "6"@],
                true,
                true,
                m,
                next,
            ));
        }
    }
}

/// The confidences are those of the table that tesseract prints for the image. A
/// failure only means that there are none.
pub proof fn law_rating(path: Seq<char>, lang: Seq<char>, log: Log)
    ensures
        ({
            let (next, r) = ocr_confidence_spec(path, lang, log);
            let (l1, found) = which_spec("tesseract"@, log);
            &&& grows(log, next)
            &&& !(r matches Err(StopView::Fail(_)))
            &&& r is Ok ==> next.asked.len() == l1.asked.len() + (if found is Ok {
                1int
            } else {
                0int
            })
            &&& r matches Ok(fields) ==> rated_in(
                fields,
                lang,
                path,
                log.asked.len() as int,
                next,
            )
        }),
{
    law_search("tesseract"@, log);
    let (l1, tesseract) = which_spec("tesseract"@, log);
    let (next, r) = ocr_confidence_spec(path, lang, log);
    let n = log.asked.len() as int;
    let m = l1.asked.len() as int;
    if let Ok(program) = tesseract {
        assert(grows(l1, next));
        lemma_grows_on(log, l1, next);
        lemma_picked_grows("tesseract"@, program, n, m, l1, next);
        let args = seq![path, "stdout"@, "-l"@, lang, "--psm"@, "6"@, "tsv"@];
        assert(crate::engine::read_args(path, lang).push("tsv"@) =~= args);
        if r is Ok {
            assert(ran(program, args, true, true, m, next));
        }
    } else if r is Ok {
        assert(missed("tesseract"@, n, m, next));
    }
}

/// A text is on the clipboard only if the whole of it was handed to wl-copy and
/// wl-copy ended with success. Otherwise the reason is told.
pub proof fn law_copy(text: Seq<char>, log: Log)
    ensures
        ({
            let (next, r) = copy_spec(text, log);
            let (l1, found) = which_spec("wl-copy"@, log);
            let n = log.asked.len() as int;
            &&& grows(log, next)
            &&& ends_here(r) ==> next.asked.len() == l1.asked.len() + (if found is Ok {
                1int
            } else {
                0int
            })
            &&& r is Ok ==> copied_in(text, n, next)
            &&& r matches Err(StopView::Fail(message)) ==> uncopied_in(text, message, n, next)
        }),
{
    law_search("wl-copy"@, log);
    let (l1, found) = which_spec("wl-copy"@, log);
    let (next, r) = copy_spec(text, log);
    let n = log.asked.len() as int;
    let m = l1.asked.len() as int;
    if let Ok(wl_copy) = found {
        assert(grows(l1, next));
        lemma_grows_on(log, l1, next);
        lemma_picked_grows("wl-copy"@, wl_copy, n, m, l1, next);
        if ends_here(r) {
            assert(fed(wl_copy, text, m, next));
        }
    } else if ends_here(r) {
        assert(missed("wl-copy"@, n, m, next));
    }
}

/// A text is put on the clipboard if that is wanted and it is not blank, and then
/// as a whole; that it could not be put there only means that it is not there.
pub proof fn law_offer(wanted: bool, text: Seq<char>, log: Log)
    ensures
        ({
            let (next, r) = offer_spec(wanted, text, log);
            let n = log.asked.len() as int;
            &&& grows(log, next)
            &&& !(r matches Err(StopView::Fail(_)))
            &&& r == Ok::<bool, StopView>(true) ==> wanted && !blank(text) && copied_in(
                text,
                n,
                next,
            )
            &&& r == Ok::<bool, StopView>(false) && wanted && !blank(text) ==> exists|
                message: Seq<char>,
            | #[trigger] uncopied_in(text, message, n, next)
            &&& !wanted || blank(text) ==> (next, r) == (log, Ok::<bool, StopView>(false))
        }),
{
    law_copy(text, log);
    lemma_blank_trims(text);
}

pub(crate) proof fn lemma_blank_trims(s: Seq<char>)
    ensures
        blank(s) <==> trimmed(s).len() == 0,
{
    if blank(s) {
        let none = Seq::<char>::empty();
        assert(none + none + s =~= s);
        crate::text_laws::law_trim(none, none, s);
    } else {
        law_trim_loses_space_only(s);
        let (lead, trail) = choose|lead: Seq<char>, trail: Seq<char>|
            blank(lead) && blank(trail) && s == #[trigger] (lead + trimmed(s) + trail);
        if trimmed(s).len() == 0 {
            assert forall|i: int| 0 <= i < s.len() implies is_space(#[trigger] s[i]) by {
                if i < lead.len() {
                    assert(s[i] == lead[i]);
                } else {
                    assert(s[i] == trail[i - lead.len()]);
                }
            }
        }
    }
}

/// Whether a reading of the image `input` in `lang` after request `since` came to
/// `result`: its text is all that tesseract printed, less the white space at its
/// end; its confidences are those that tesseract printed; and it was copied if and
/// only if the whole of what tesseract printed was handed to wl-copy with success,
/// which is tried if it is wanted and there is anything but white space.
pub open spec fn reading_of(
    result: OcrResultView,
    wanted: bool,
    lang: Seq<char>,
    input: Seq<char>,
    since: int,
    log: Log,
) -> bool {
    exists|whole: Seq<char>|
        {
            &&& #[trigger] recognized_in(whole, lang, input, since, log)
            &&& all_but_space(result.text, whole)
            &&& rated_in(result.confidence, lang, input, since, log)
            &&& result.copied ==> wanted && !blank(whole) && copied_in(whole, since, log)
            &&& wanted && !blank(whole) && !result.copied ==> exists|message: Seq<char>| #[trigger]
                uncopied_in(whole, message, since, log)
        }
}

proof fn lemma_reading_grows(
    result: OcrResultView,
    wanted: bool,
    lang: Seq<char>,
    input: Seq<char>,
    since: int,
    log: Log,
    next: Log,
)
    requires
        reading_of(result, wanted, lang, input, since, log),
        grows(log, next),
    ensures
        reading_of(result, wanted, lang, input, since, next),
{
    let whole = choose|whole: Seq<char>|
        {
            &&& #[trigger] recognized_in(whole, lang, input, since, log)
            &&& all_but_space(result.text, whole)
            &&& rated_in(result.confidence, lang, input, since, log)
            &&& result.copied ==> wanted && !blank(whole) && copied_in(whole, since, log)
            &&& wanted && !blank(whole) && !result.copied ==> exists|message: Seq<char>| #[trigger]
                uncopied_in(whole, message, since, log)
        };
    lemma_recognized_grows(whole, lang, input, since, log, next);
    lemma_rated_grows(result.confidence, lang, input, since, log, next);
    if result.copied {
        lemma_copied_grows(whole, since, log, next);
    } else if wanted && !blank(whole) {
        let message = choose|message: Seq<char>| #[trigger] uncopied_in(whole, message, since, log);
        lemma_uncopied_grows(whole, message, since, log, next);
    }
}

/// What a reading of one image comes to; it fails only where tesseract does.
pub proof fn law_read(
    wanted: bool,
    lang: Seq<char>,
    source: Seq<char>,
    input: Seq<char>,
    log: Log,
)
    ensures
        ({
            let (next, r) = read_spec(wanted, lang, source, input, log);
            let n = log.asked.len() as int;
            let (l1, whole) = ocr_image_spec(input, lang, log);
            let (l2, fields) = ocr_confidence_spec(input, lang, l1);
            &&& grows(log, next)
            &&& r matches Ok(result) ==> {
                &&& whole is Ok
                &&& fields is Ok
                &&& (next, Ok::<bool, StopView>(result.copied)) == offer_spec(
                    wanted,
                    whole->Ok_0,
                    l2,
                )
                &&& reading_of(result, wanted, lang, input, n, next)
                &&& result.lang == lang
                &&& result.source == source
            }
            &&& r matches Err(StopView::Fail(m)) ==> (next, Err::<Seq<char>, StopView>(
                StopView::Fail(m),
            )) == ocr_image_spec(input, lang, log)
            &&& !wanted ==> spares(log, next)
        }),
{
    let n = log.asked.len() as int;
    law_recognition(input, lang, log);
    lemma_recognition_spares(input, lang, log);
    let (l1, r1) = ocr_image_spec(input, lang, log);
    let (next, r) = read_spec(wanted, lang, source, input, log);
    if let Ok(whole) = r1 {
        law_rating(input, lang, l1);
        lemma_rating_spares(input, lang, l1);
        let (l2, r2) = ocr_confidence_spec(input, lang, l1);
        lemma_grows_on(log, l1, l2);
        if let Ok(fields) = r2 {
            law_offer(wanted, whole, l2);
            let l3 = offer_spec(wanted, whole, l2).0;
            lemma_grows_on(l1, l2, l3);
            lemma_grows_on(log, l1, l3);
            lemma_recognized_grows(whole, lang, input, n, l1, l3);
            lemma_rated_since(fields, lang, input, n, l1.asked.len() as int, l2);
            lemma_rated_grows(fields, lang, input, n, l2, l3);
            law_trim_end_loses_space_only(whole);
            let text = trimmed_end(whole);
            assert(text =~= whole.subrange(0, text.len() as int));
            if let Ok(result) = r {
                let k = l2.asked.len() as int;
                if result.copied {
                    lemma_copied_since(whole, n, k, l3);
                } else if wanted && !blank(whole) {
                    let message = choose|message: Seq<char>| #[trigger]
                        uncopied_in(whole, message, k, l3);
                    lemma_uncopied_since(whole, message, n, k, l3);
                }
                assert(reading_of(result, wanted, lang, input, n, l3));
            }
            if !wanted {
                lemma_spares_on(log, l1, l2);
            }
        }
    }
}

proof fn lemma_rated_since(
    fields: Seq<Seq<char>>,
    lang: Seq<char>,
    input: Seq<char>,
    since: int,
    after: int,
    log: Log,
)
    requires
        since <= after,
        rated_in(fields, lang, input, after, log),
    ensures
        rated_in(fields, lang, input, since, log),
{
    if exists|from: int, to: int|
        after <= from && #[trigger] missed("tesseract"@, from, to, log) && fields == Seq::<
            Seq<char>,
        >::empty() {
    } else {
        let (tesseract, from, i) = choose|tesseract: Seq<u8>, from: int, i: int|
            after <= from && #[trigger] picked("tesseract"@, tesseract, from, i, log) && ran(
                tesseract,
                seq![input, "stdout"@, "-l"@, lang, "--psm"@, "6"@, "tsv"@],
                true,
                true,
                i,
                log,
            ) && fields == (match said(end_of(i, log)) {
                Some(table) => confidences(table),
                None => Seq::empty(),
            });
        assert(since <= from && picked("tesseract"@, tesseract, from, i, log));
    }
}

proof fn lemma_copied_since(text: Seq<char>, since: int, after: int, log: Log)
    requires
        since <= after,
        copied_in(text, after, log),
    ensures
        copied_in(text, since, log),
{
}

proof fn lemma_uncopied_since(
    text: Seq<char>,
    message: Seq<char>,
    since: int,
    after: int,
    log: Log,
)
    requires
        since <= after,
        uncopied_in(text, message, after, log),
    ensures
        uncopied_in(text, message, since, log),
{
}

proof fn lemma_spares_on(log: Log, next: Log, last: Log)
    requires
        grows(log, next),
        grows(next, last),
        spares(log, next),
        spares(next, last),
    ensures
        spares(log, last),
{
    assert forall|i: int| log.asked.len() <= i < last.asked.len() implies !(#[trigger]
    last.asked[i] is Pipe) by {
        if i < next.asked.len() {
            assert(last.asked[i] == next.asked[i]);
        }
    }
}

proof fn lemma_first_file_spares(name: Seq<char>, dirs: Seq<Seq<u8>>, i: int, log: Log)
    ensures
        grows(log, first_file(name, dirs, i, log).0),
        spares(log, first_file(name, dirs, i, log).0),
    decreases dirs.len() - i,
{
    if 0 <= i < dirs.len() {
        let path = crate::paths::joined(dirs[i], encode_utf8(name));
        let (next, r) = put_flag(log, RequestView::IsFile { path });
        assert(grows(log, next) && spares(log, next));
        if r == Ok::<bool, StopView>(false) {
            lemma_first_file_spares(name, dirs, i + 1, next);
            let last = first_file(name, dirs, i, log).0;
            lemma_spares_on(log, next, last);
            lemma_grows_on(log, next, last);
        }
    }
}

proof fn lemma_search_spares(name: Seq<char>, log: Log)
    ensures
        grows(log, which_spec(name, log).0),
        spares(log, which_spec(name, log).0),
{
    let (next, r) = put_dirs(log);
    assert(grows(log, next) && spares(log, next));
    if let Ok(dirs) = r {
        lemma_first_file_spares(name, dirs, 0, next);
        lemma_spares_on(log, next, which_spec(name, log).0);
        lemma_grows_on(log, next, which_spec(name, log).0);
    }
}

proof fn lemma_recognition_spares(path: Seq<char>, lang: Seq<char>, log: Log)
    ensures
        spares(log, ocr_image_spec(path, lang, log).0),
{
    lemma_search_spares("tesseract"@, log);
    let l1 = which_spec("tesseract"@, log).0;
    let next = ocr_image_spec(path, lang, log).0;
    assert(grows(l1, next) && spares(l1, next));
    lemma_spares_on(log, l1, next);
}

proof fn lemma_rating_spares(path: Seq<char>, lang: Seq<char>, log: Log)
    ensures
        spares(log, ocr_confidence_spec(path, lang, log).0),
{
    lemma_search_spares("tesseract"@, log);
    let l1 = which_spec("tesseract"@, log).0;
    let next = ocr_confidence_spec(path, lang, log).0;
    assert(grows(l1, next) && spares(l1, next));
    lemma_spares_on(log, l1, next);
}

proof fn lemma_lang_spares(requested: Seq<char>, log: Log)
    ensures
        spares(log, resolve_lang_spec(requested, log).0),
{
    lemma_search_spares("tesseract"@, log);
    let l1 = which_spec("tesseract"@, log).0;
    let l2 = list_langs_spec(log).0;
    assert(grows(l1, l2) && spares(l1, l2));
    lemma_spares_on(log, l1, l2);
    lemma_grows_on(log, l1, l2);
    let l3 = resolve_lang_spec(requested, log).0;
    law_active_layout(l2);
    assert(spares(l2, detect_layout_spec(l2).0));
    lemma_spares_on(log, l2, detect_layout_spec(l2).0);
}

proof fn lemma_temp_spares(prefix: Seq<char>, ext: Seq<char>, log: Log)
    ensures
        grows(log, new_temp_spec(prefix, ext, log).0),
        spares(log, new_temp_spec(prefix, ext, log).0),
{
    let (l1, stamp) = crate::host::put_stamp(log);
    let next = new_temp_spec(prefix, ext, log).0;
    if let Ok((nonce, pid)) = stamp {
        let n = Naming { prefix, ext, nonce, pid };
        law_places(l1);
        let (l2, places) = temp_dirs_spec(l1);
        assert(spares(l1, l2));
        lemma_spares_on(log, l1, l2);
        lemma_grows_on(log, l1, l2);
        if let Ok(dirs) = places {
            lemma_attempts_grow(n, dirs, 0, 0, l2);
            assert(spares(l2, next));
            lemma_spares_on(log, l2, next);
            lemma_grows_on(log, l2, next);
        }
    }
}

proof fn lemma_capture_spares(region: bool, log: Log)
    requires
        log.asked.len() <= log.replies.len(),
    ensures
        grows(log, capture_spec(region, log).0),
        spares(log, capture_spec(region, log).0),
{
    let next = capture_spec(region, log).0;
    law_capture_region(log);
    law_capture_full(log);
    let start = if region {
        which_spec("slurp"@, log)
    } else {
        (log, Ok(Seq::<u8>::empty()))
    };
    lemma_search_spares("slurp"@, log);
    let l1 = start.0;
    if start.1 is Ok {
        lemma_search_spares("grim"@, l1);
        let (l2, grim) = which_spec("grim"@, l1);
        lemma_spares_on(log, l1, l2);
        lemma_grows_on(log, l1, l2);
        if grim is Ok {
            let prefix = if region {
                "region"@
            } else {
                "full"@
            };
            lemma_temp_spares(prefix, "png"@, l2);
            let (l3, temp) = new_temp_spec(prefix, "png"@, l2);
            lemma_spares_on(log, l2, l3);
            lemma_grows_on(log, l2, l3);
            if temp is Ok {
                assert(grows(l3, next) && spares(l3, next));
                lemma_spares_on(log, l3, next);
            }
        }
    }
}

proof fn lemma_preprocess_spares(src: Seq<char>, log: Log)
    ensures
        grows(log, preprocess_spec(src, log).0),
        spares(log, preprocess_spec(src, log).0),
{
    let next = preprocess_spec(src, log).0;
    lemma_search_spares("magick"@, log);
    let (l1, magick) = which_spec("magick"@, log);
    if magick is Ok {
        lemma_temp_spares("proc"@, "png"@, l1);
        let (l2, temp) = new_temp_spec("proc"@, "png"@, l1);
        lemma_spares_on(log, l1, l2);
        lemma_grows_on(log, l1, l2);
        if temp is Ok {
            lemma_search_spares("identify"@, l2);
            let (l3, identify) = which_spec("identify"@, l2);
            lemma_spares_on(log, l2, l3);
            lemma_grows_on(log, l2, l3);
            assert(grows(l3, next) && spares(l3, next));
            lemma_spares_on(log, l3, next);
            lemma_grows_on(log, l3, next);
        }
    }
}

/// Whether the last requests have the capture removed, after the prepared image if
/// there is one.
pub open spec fn cleaned(shot: TempFileView, prepared: Option<TempFileView>, log: Log) -> bool {
    let n = log.asked.len() as int;
    &&& n > 1
    &&& log.asked[n - 1] == RequestView::Discard { path: shot.path, dir: shot.dir }
    &&& prepared matches Some(file) ==> log.asked[n - 2] == RequestView::Discard {
        path: file.path,
        dir: file.dir,
    }
}

/// Reading a capture reads the prepared image, and the capture itself where it
/// could not be prepared. It fails only where tesseract does. At its end the
/// prepared image and the capture are removed.
pub proof fn law_read_capture(wanted: bool, lang: Seq<char>, shot: TempFileView, log: Log)
    requires
        log.asked.len() <= log.replies.len(),
    ensures
        ({
            let (next, r) = read_capture_spec(wanted, lang, shot, log);
            let source = utf8_lossy(shot.path);
            let (l1, prepared) = preprocess_spec(source, log);
            let n = l1.asked.len() as int;
            let input = match prepared {
                Ok(file) => utf8_lossy(file.path),
                Err(_) => source,
            };
            &&& grows(log, next)
            &&& ends_here(r) ==> {
                &&& ends_here(prepared)
                &&& cleaned(
                    shot,
                    if let Ok(file) = prepared {
                        Some(file)
                    } else {
                        None
                    },
                    next,
                )
            }
            &&& ends_here(r) ==> next.asked.len() == read_spec(
                wanted,
                lang,
                "screen"@,
                input,
                l1,
            ).0.asked.len() + (if prepared is Ok {
                2int
            } else {
                1int
            })
            &&& r matches Ok(result) ==> {
                &&& reading_of(result, wanted, lang, input, n, next)
                &&& result.lang == lang
                &&& result.source == "screen"@
            }
            &&& r matches Err(StopView::Fail(m)) ==> ocr_image_spec(input, lang, l1).1 == Err::<
                Seq<char>,
                StopView,
            >(StopView::Fail(m))
            &&& !wanted ==> spares(log, next)
        }),
{
    let source = utf8_lossy(shot.path);
    let (l1, prepared) = preprocess_spec(source, log);
    let n = l1.asked.len() as int;
    let (next, r) = read_capture_spec(wanted, lang, shot, log);
    lemma_preprocess_spares(source, log);
    if ends_here(prepared) {
        let input = match prepared {
            Ok(file) => utf8_lossy(file.path),
            Err(_) => source,
        };
        law_read(wanted, lang, "screen"@, input, l1);
        let (l2, r2) = read_spec(wanted, lang, "screen"@, input, l1);
        lemma_grows_on(log, l1, l2);
        let (l3, r3) = match prepared {
            Ok(file) => released(file, (l2, r2)),
            Err(_) => (l2, r2),
        };
        if let Ok(file) = prepared {
            law_release(file, l2, r2);
        }
        assert(grows(l2, l3) && spares(l2, l3));
        assert(read_shot(wanted, lang, source, log) == (l3, r3));
        law_release(shot, l3, r3);
        assert(spares(l3, next));
        lemma_grows_on(l2, l3, next);
        lemma_grows_on(log, l2, next);
        if let Ok(result) = r {
            lemma_reading_grows(result, wanted, lang, input, n, l2, next);
        }
        if !wanted {
            lemma_spares_on(log, l1, l2);
            lemma_spares_on(log, l2, l3);
            lemma_grows_on(log, l2, l3);
            lemma_spares_on(log, l3, next);
        }
    }
}

/// A reading settles the language and takes the image: the file that is asked for,
/// if it is there, else a capture of a region or of the whole screen, prepared if
/// that works. Its text is all that tesseract prints for that image in that
/// language, less the white space at its end; nothing that was recognized is lost.
/// It fails only where the language cannot be settled, the image cannot be had, or
/// tesseract fails. It hands nothing to any program unless a copy is wanted.
pub proof fn law_reading_is_what_was_recognized(opts: OptionsView, log: Log)
    requires
        log.asked.len() <= log.replies.len(),
    ensures
        ({
            let (next, r) = run_ocr_spec(opts, log);
            let (l1, settled) = resolve_lang_spec(opts.lang, log);
            let n = l1.asked.len() as int;
            &&& grows(log, next)
            &&& !opts.copy ==> spares(log, next)
            &&& settled is Err ==> (next, r) == (
                l1,
                Err::<OcrResultView, StopView>(settled->Err_0),
            )
            &&& settled matches Ok(lang) ==> match opts.file {
                Some(path) => ends_here(r) ==> {
                    &&& next.asked[n] == RequestView::IsFile { path: encode_utf8(path) }
                    &&& next.replies[n] matches Reply::Flag(here)
                    &&& !here ==> r == Err::<OcrResultView, StopView>(
                        StopView::Fail("file not found: "@ + path),
                    )
                    &&& here ==> {
                        let start = put_flag(
                            l1,
                            RequestView::IsFile { path: encode_utf8(path) },
                        ).0;
                        &&& next == read_spec(opts.copy, lang, path, path, start).0
                        &&& r matches Ok(result) ==> {
                            &&& reading_of(result, opts.copy, lang, path, n + 1, next)
                            &&& result.lang == lang
                            &&& result.source == path
                        }
                        &&& r matches Err(StopView::Fail(m)) ==> ocr_image_spec(
                            path,
                            lang,
                            start,
                        ).1 == Err::<Seq<char>, StopView>(StopView::Fail(m))
                    }
                },
                None => {
                    let (l2, captured) = capture_spec(opts.region, l1);
                    &&& captured is Err ==> (next, r) == (
                        l2,
                        Err::<OcrResultView, StopView>(captured->Err_0),
                    )
                    &&& captured matches Ok(shot) ==> {
                        &&& next == read_capture_spec(opts.copy, lang, shot, l2).0
                        &&& r == read_capture_spec(opts.copy, lang, shot, l2).1
                    }
                    &&& captured matches Ok(shot) ==> {
                        let source = utf8_lossy(shot.path);
                        let (l3, prepared) = preprocess_spec(source, l2);
                        let input = match prepared {
                            Ok(file) => utf8_lossy(file.path),
                            Err(_) => source,
                        };
                        &&& r matches Ok(result) ==> {
                            &&& reading_of(
                                result,
                                opts.copy,
                                lang,
                                input,
                                l3.asked.len() as int,
                                next,
                            )
                            &&& result.lang == lang
                            &&& result.source == "screen"@
                        }
                        &&& r matches Err(StopView::Fail(m)) ==> ocr_image_spec(
                            input,
                            lang,
                            l3,
                        ).1 == Err::<Seq<char>, StopView>(StopView::Fail(m))
                    }
                },
            }
        }),
{
    let (next, r) = run_ocr_spec(opts, log);
    law_settled_lang(opts.lang, log);
    lemma_lang_spares(opts.lang, log);
    let (l1, settled) = resolve_lang_spec(opts.lang, log);
    if let Ok(lang) = settled {
        match opts.file {
            Some(path) => {
                let request = RequestView::IsFile { path: encode_utf8(path) };
                let (l2, here) = put_flag(l1, request);
                assert(grows(l1, l2) && spares(l1, l2));
                law_read(opts.copy, lang, path, path, l2);
                lemma_grows_on(log, l1, l2);
                lemma_spares_on(log, l1, l2);
                if here == Ok::<bool, StopView>(true) {
                    assert(l2.asked[l1.asked.len() as int] == request);
                    lemma_grows_on(log, l2, next);
                    if !opts.copy {
                        lemma_spares_on(log, l2, next);
                    }
                }
            },
            None => {
                lemma_capture_spares(opts.region, l1);
                let (l2, captured) = capture_spec(opts.region, l1);
                lemma_grows_on(log, l1, l2);
                lemma_spares_on(log, l1, l2);
                if let Ok(shot) = captured {
                    law_read_capture(opts.copy, lang, shot, l2);
                    lemma_grows_on(log, l2, next);
                    if !opts.copy {
                        lemma_spares_on(log, l2, next);
                    }
                }
            },
        }
    }
}

} // verus!
