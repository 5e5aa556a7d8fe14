//! What holds of capturing and preparing images, and of what is read off a table.

use vstd::prelude::*;

use crate::engine::{
    capture_full_spec, capture_region_spec, capture_spec, confidences, image_size_spec, magick_args,
    preprocess_spec, rows_of, size_in,
};
use crate::host::{Log, RequestView, Running, StopView};
use crate::temp_laws::law_temp_file;
use crate::tempfile::{new_temp_spec, TempFileView};
use crate::text::{lemma_until, pieces, text_lines, trimmed, u32_value};
use crate::text_laws::{
    bare, blank, law_first_line, law_lines_join, law_one_line, law_one_piece, law_split_undoes_join,
    law_trim, with_between,
};
use crate::tidy::ends_here;
use crate::tool_laws::{end_of, grows, law_search, lemma_grows_on, ran, said};
use crate::tools::which_spec;
use crate::unicode::utf8_lossy;

verus! {

/// The number that a text writes, and zero for a text that writes none.
pub open spec fn number_or_zero(s: Seq<char>) -> u32 {
    match u32_value(s) {
        Some(n) => n,
        None => 0,
    }
}

/// The size of an image is the number before the first `x` and the number after
/// it, with white space around the whole; it is not known without an `x`.
pub proof fn law_size(lead: Seq<char>, w: Seq<char>, h: Seq<char>, trail: Seq<char>)
    requires
        blank(lead),
        blank(trail),
        !w.contains('x'),
    ensures
        bare(w + seq!['x'] + h) ==> size_in(lead + (w + seq!['x'] + h) + trail) == (
            number_or_zero(w),
            number_or_zero(h),
        ),
        bare(w) ==> size_in(lead + w + trail) == (0u32, 0u32),
{
    let s = w + seq!['x'] + h;
    let n = w.len() as int;
    if bare(s) {
        law_trim(lead, s, trail);
        assert forall|j: int| 0 <= j < n implies s[j] != 'x' by {
            assert(w.contains(w[j]));
            assert(s[j] == w[j]);
        }
        assert(s[n] == 'x');
        lemma_until(s, 'x', n);
        assert(s.take(n) =~= w);
        assert(s.skip(n + 1) =~= h);
    }
    if bare(w) {
        law_trim(lead, w, trail);
        lemma_until(w, 'x', n);
    }
}

/// An image is turned grey and lightly sharpened, in this order, from its file to
/// the other; in between it is enlarged to three times its size if its width and
/// height are known and both under 1200.
pub proof fn law_preparation(src: Seq<char>, w: u32, h: u32, target: Seq<char>)
    ensures
        0 < w < 1200 && 0 < h < 1200 ==> magick_args(src, w, h, target) == seq![
            src,
            "-colorspace"@,
            "Gray"@,
            "-resize"@,
            "300%"@,
            "-sharpen"@,
            "0x0.5"@,
            target,
        ],
        !(0 < w < 1200 && 0 < h < 1200) ==> magick_args(src, w, h, target) == seq![
            src,
            "-colorspace"@,
            "Gray"@,
            "-sharpen"@,
            "0x0.5"@,
            target,
        ],
{
    assert(0 < w < 1200 && 0 < h < 1200 ==> magick_args(src, w, h, target) =~= seq![
        src,
        "-colorspace"@,
        "Gray"@,
        "-resize"@,
        "300%"@,
        "-sharpen"@,
        "0x0.5"@,
        target,
    ]);
    assert(!(0 < w < 1200 && 0 < h < 1200) ==> magick_args(src, w, h, target) =~= seq![
        src,
        "-colorspace"@,
        "Gray"@,
        "-sharpen"@,
        "0x0.5"@,
        target,
    ]);
}

/// What is said of a program that could not be run, or ended without success.
pub open spec fn complaint(name: Seq<char>, running: Running) -> Seq<char> {
    match running {
        Running::Failed(reason) => "cannot run "@ + name + ": "@ + reason@,
        Running::Exited { status, stderr, .. } => name + " exited with "@ + status@ + ": "@
            + trimmed(utf8_lossy(stderr@)),
    }
}

/// Whether the last request has a file and its directory removed.
pub open spec fn dropped(file: TempFileView, log: Log) -> bool {
    &&& log.asked.len() > 0
    &&& log.asked.last() == RequestView::Discard { path: file.path, dir: file.dir }
    &&& log.replies[log.asked.len() - 1] is Discarded
}

/// Capturing a region: slurp lets the user select it, and grim captures what slurp
/// printed, less the white space around it, into a new temporary file. A program
/// that is missing or fails makes it fail, and so does an empty selection; the
/// file is removed again then.
pub proof fn law_capture_region(log: Log)
    requires
        log.asked.len() <= log.replies.len(),
    ensures
        ({
            let (next, r) = capture_region_spec(log);
            let (l1, slurp) = which_spec("slurp"@, log);
            let (l2, grim) = which_spec("grim"@, l1);
            let (l3, temp) = new_temp_spec("region"@, "png"@, l2);
            let m = l3.asked.len() as int;
            &&& capture_spec(true, log) == (next, r)
            &&& grows(log, next)
            &&& slurp is Err ==> (next, r) == (l1, Err::<TempFileView, StopView>(slurp->Err_0))
            &&& slurp is Ok && grim is Err ==> (next, r) == (
                l2,
                Err::<TempFileView, StopView>(grim->Err_0),
            )
            &&& slurp is Ok && grim is Ok && temp is Err ==> (next, r) == (
                l3,
                Err::<TempFileView, StopView>(temp->Err_0),
            )
            &&& slurp is Ok && grim is Ok && temp is Ok && ends_here(r) ==> {
                let png = temp->Ok_0;
                let region = trimmed(said(end_of(m, next))->Some_0);
                &&& grows(l3, next)
                &&& ran(slurp->Ok_0, Seq::empty(), true, true, m, next)
                &&& r is Ok ==> {
                    &&& r == Ok::<TempFileView, StopView>(png)
                    &&& next.asked.len() == m + 2
                    &&& said(end_of(m, next)) is Some
                    &&& region.len() > 0
                    &&& ran(
                        grim->Ok_0,
                        seq!["-g"@, region, utf8_lossy(png.path)],
                        true,
                        true,
                        m + 1,
                        next,
                    )
                    &&& said(end_of(m + 1, next)) is Some
                }
                &&& r matches Err(StopView::Fail(message)) ==> {
                    &&& dropped(png, next)
                    &&& said(end_of(m, next)) is None ==> crate::tools::run_spec(
                        slurp->Ok_0,
                        Seq::empty(),
                        l3,
                    ).1 == Err::<Seq<char>, StopView>(StopView::Fail(message))
                    &&& said(end_of(m, next)) is Some && region.len() == 0 ==> message
                        == "selection cancelled"@
                    &&& said(end_of(m, next)) is Some && region.len() > 0 ==> {
                        &&& ran(
                            grim->Ok_0,
                            seq!["-g"@, region, utf8_lossy(png.path)],
                            true,
                            true,
                            m + 1,
                            next,
                        )
                        &&& said(end_of(m + 1, next)) is None
                        &&& message == complaint("grim"@, end_of(m + 1, next))
                    }
                }
            }
        }),
{
    law_search("slurp"@, log);
    let (l1, slurp) = which_spec("slurp"@, log);
    if slurp is Ok {
        law_search("grim"@, l1);
        let (l2, grim) = which_spec("grim"@, l1);
        lemma_grows_on(log, l1, l2);
        if grim is Ok {
            law_temp_file("region"@, "png"@, l2);
            let (l3, temp) = new_temp_spec("region"@, "png"@, l2);
            lemma_grows_on(log, l2, l3);
            if temp is Ok {
                let next = capture_region_spec(log).0;
                assert(grows(l3, next));
                lemma_grows_on(log, l3, next);
            }
        }
    }
}

/// Capturing the whole screen: grim captures it into a new temporary file. A
/// program that is missing or fails makes it fail, and the file is removed again
/// then.
pub proof fn law_capture_full(log: Log)
    requires
        log.asked.len() <= log.replies.len(),
    ensures
        ({
            let (next, r) = capture_full_spec(log);
            let (l1, grim) = which_spec("grim"@, log);
            let (l2, temp) = new_temp_spec("full"@, "png"@, l1);
            let m = l2.asked.len() as int;
            &&& capture_spec(false, log) == (next, r)
            &&& grows(log, next)
            &&& grim is Err ==> (next, r) == (l1, Err::<TempFileView, StopView>(grim->Err_0))
            &&& grim is Ok && temp is Err ==> (next, r) == (
                l2,
                Err::<TempFileView, StopView>(temp->Err_0),
            )
            &&& grim is Ok && temp is Ok && ends_here(r) ==> {
                let png = temp->Ok_0;
                &&& grows(l2, next)
                &&& ran(grim->Ok_0, seq![utf8_lossy(png.path)], true, true, m, next)
                &&& r is Ok ==> {
                    &&& r == Ok::<TempFileView, StopView>(png)
                    &&& next.asked.len() == m + 1
                    &&& said(end_of(m, next)) is Some
                }
                &&& r matches Err(StopView::Fail(message)) ==> {
                    &&& dropped(png, next)
                    &&& said(end_of(m, next)) is None
                    &&& message == complaint("grim"@, end_of(m, next))
                }
            }
        }),
{
    law_search("grim"@, log);
    let (l1, grim) = which_spec("grim"@, log);
    if grim is Ok {
        law_temp_file("full"@, "png"@, l1);
        let (l2, temp) = new_temp_spec("full"@, "png"@, l1);
        lemma_grows_on(log, l1, l2);
        if temp is Ok {
            let next = capture_full_spec(log).0;
            assert(grows(l2, next));
            lemma_grows_on(log, l2, next);
        }
    }
}

/// The size of an image is what identify prints; it is not known where identify
/// ends without success. It fails only where identify is missing or cannot be run.
pub proof fn law_image_size(path: Seq<char>, log: Log)
    ensures
        ({
            let (next, r) = image_size_spec(path, log);
            let (l1, identify) = which_spec("identify"@, log);
            let m = l1.asked.len() as int;
            &&& grows(log, next)
            &&& identify is Err ==> (next, r) == (
                l1,
                Err::<(u32, u32), StopView>(identify->Err_0),
            )
            &&& identify is Ok && ends_here(r) ==> {
                &&& next.asked.len() == m + 1
                &&& ran(
                    identify->Ok_0,
                    seq!["-format"@, "%wx%h"@, path],
                    true,
                    true,
                    m,
                    next,
                )
                &&& match end_of(m, next) {
                    Running::Exited { success, stdout, .. } => r == Ok::<(u32, u32), StopView>(
                        if success {
                            size_in(utf8_lossy(stdout@))
                        } else {
                            (0u32, 0u32)
                        },
                    ),
                    Running::Failed(reason) => r == Err::<(u32, u32), StopView>(
                        StopView::Fail("cannot run "@ + "identify"@ + ": "@ + reason@),
                    ),
                }
            }
        }),
{
    law_search("identify"@, log);
    let (l1, identify) = which_spec("identify"@, log);
    if identify is Ok {
        let next = image_size_spec(path, log).0;
        assert(grows(l1, next));
        lemma_grows_on(log, l1, next);
    }
}

/// Preparing an image: magick makes the prepared image out of the given one, in a
/// new temporary file, as its size asks for. It fails where a program is missing
/// or magick fails, and the file is removed again then.
pub proof fn law_preprocess(src: Seq<char>, log: Log)
    requires
        log.asked.len() <= log.replies.len(),
    ensures
        ({
            let (next, r) = preprocess_spec(src, log);
            let (l1, magick) = which_spec("magick"@, log);
            let (l2, temp) = new_temp_spec("proc"@, "png"@, l1);
            let (l3, size) = image_size_spec(src, l2);
            let m = l3.asked.len() as int;
            &&& grows(log, next)
            &&& magick is Err ==> (next, r) == (l1, Err::<TempFileView, StopView>(magick->Err_0))
            &&& magick is Ok && temp is Err ==> (next, r) == (
                l2,
                Err::<TempFileView, StopView>(temp->Err_0),
            )
            &&& magick is Ok && temp is Ok && ends_here(r) ==> {
                let png = temp->Ok_0;
                let (w, h) = size->Ok_0;
                &&& grows(l2, next)
                &&& r is Ok ==> {
                    &&& r == Ok::<TempFileView, StopView>(png)
                    &&& size is Ok
                    &&& next.asked.len() == m + 1
                    &&& ran(
                        magick->Ok_0,
                        magick_args(src, w, h, utf8_lossy(png.path)),
                        true,
                        false,
                        m,
                        next,
                    )
                    &&& said(end_of(m, next)) is Some
                }
                &&& r matches Err(StopView::Fail(message)) ==> {
                    &&& dropped(png, next)
                    &&& size is Err ==> size == Err::<(u32, u32), StopView>(
                        StopView::Fail(message),
                    )
                    &&& size is Ok ==> {
                        &&& ran(
                            magick->Ok_0,
                            magick_args(src, w, h, utf8_lossy(png.path)),
                            true,
                            false,
                            m,
                            next,
                        )
                        &&& match end_of(m, next) {
                            Running::Failed(reason) => message == "cannot run "@ + "magick"@
                                + ": "@ + reason@,
                            Running::Exited { success, status, .. } => !success && message
                                == "magick exited with "@ + status@,
                        }
                    }
                }
            }
        }),
{
    law_search("magick"@, log);
    let (l1, magick) = which_spec("magick"@, log);
    if magick is Ok {
        law_temp_file("proc"@, "png"@, l1);
        let (l2, temp) = new_temp_spec("proc"@, "png"@, l1);
        lemma_grows_on(log, l1, l2);
        if temp is Ok {
            law_image_size(src, l2);
            let l3 = image_size_spec(src, l2).0;
            let next = preprocess_spec(src, log).0;
            assert(grows(l3, next));
            lemma_grows_on(l2, l3, next);
            lemma_grows_on(log, l2, next);
        }
    }
}

/// What a row of the table adds to the confidences: its eleventh column, less the
/// white space around it, if it has twelve or more.
pub open spec fn row_fields(columns: Seq<Seq<char>>) -> Seq<Seq<char>> {
    if columns.len() >= 12 {
        seq![trimmed(columns[10])]
    } else {
        Seq::empty()
    }
}

/// Whether these may be the columns of a row.
pub open spec fn are_columns(columns: Seq<Seq<char>>) -> bool {
    &&& columns.len() > 0
    &&& forall|i: int| 0 <= i < columns.len() ==> !(#[trigger] columns[i]).contains('\t')
}

proof fn lemma_confidences(table: Seq<char>, row: Seq<char>, more: Seq<char>)
    requires
        text_lines(table).len() > 0,
        text_lines(more) == text_lines(table) + seq![row],
    ensures
        confidences(more) == confidences(table) + row_fields(pieces(row, '\t')),
{
    let f = |row: Seq<char>| pieces(row, '\t');
    let wide = |columns: Seq<Seq<char>>| columns.len() >= 12;
    let g = |columns: Seq<Seq<char>>| trimmed(columns[10]);
    let columns = pieces(row, '\t');
    assert(rows_of(more) =~= rows_of(table).push(row));
    let a = rows_of(table).map_values(f);
    assert(rows_of(more).map_values(f) =~= a.push(columns));
    a.lemma_filter_push(columns, wide);
    if columns.len() >= 12 {
        assert(a.filter(wide).push(columns).map_values(g) =~= a.filter(wide).map_values(g).push(
            trimmed(columns[10]),
        ));
        assert(confidences(more) =~= confidences(table) + row_fields(columns));
    } else {
        assert(confidences(more) =~= confidences(table) + row_fields(columns));
    }
}

/// The heading of the table gives no confidence, and each row after it gives its
/// eleventh column, whatever that holds, less the white space around it, if the
/// row has twelve columns or more. The last row may go without a line feed.
pub proof fn law_confidences(heading: Seq<char>, table: Seq<char>, columns: Seq<Seq<char>>)
    requires
        !heading.contains('\n'),
        table.len() > 0,
        table.last() == '\n',
        are_columns(columns),
        !with_between(columns, '\t').contains('\n'),
        with_between(columns, '\t').len() > 0,
        with_between(columns, '\t').last() != '\r',
    ensures
        confidences(Seq::empty()) == Seq::<Seq<char>>::empty(),
        confidences(heading) == Seq::<Seq<char>>::empty(),
        confidences(heading + seq!['\n']) == Seq::<Seq<char>>::empty(),
        confidences(table + seq!['\n']) == confidences(table),
        confidences(table + with_between(columns, '\t')) == confidences(table) + row_fields(
            columns,
        ),
        confidences(table + with_between(columns, '\t') + seq!['\n']) == confidences(table)
            + row_fields(columns),
        confidences(table + with_between(columns, '\t') + seq!['\r', '\n']) == confidences(table)
            + row_fields(columns),
{
    let none = Seq::<char>::empty();
    let row = with_between(columns, '\t');
    law_one_line(none);
    lemma_no_rows(none);
    law_one_line(heading);
    lemma_no_rows(heading);
    lemma_heading(heading);
    lemma_no_rows(heading + seq!['\n']);
    law_split_undoes_join(columns, '\t');
    law_one_line(row);
    law_first_line(row, none);
    law_lines_join(table, row);
    law_lines_join(table, row + seq!['\n'] + none);
    law_lines_join(table, row + seq!['\r', '\n'] + none);
    assert(seq![row] + text_lines(none) =~= seq![row]);
    assert(table + row + seq!['\n'] =~= table + (row + seq!['\n'] + none));
    assert(table + row + seq!['\r', '\n'] =~= table + (row + seq!['\r', '\n'] + none));
    lemma_some_line(table);
    law_one_line(none);
    law_first_line(none, none);
    law_lines_join(table, none + seq!['\n'] + none);
    assert(none + seq!['\n'] + none =~= seq!['\n']);
    assert(seq![none] + text_lines(none) =~= seq![none]);
    lemma_confidences(table, none, table + seq!['\n']);
    law_one_piece(none, '\t');
    assert(confidences(table) + row_fields(seq![none]) =~= confidences(table));
    lemma_confidences(table, row, table + row);
    lemma_confidences(table, row, table + row + seq!['\n']);
    lemma_confidences(table, row, table + row + seq!['\r', '\n']);
}

proof fn lemma_some_line(table: Seq<char>)
    requires
        table.len() > 0,
    ensures
        text_lines(table).len() > 0,
{
}

proof fn lemma_heading(heading: Seq<char>)
    requires
        !heading.contains('\n'),
    ensures
        text_lines(heading + seq!['\n']).len() == 1,
{
    let s = heading + seq!['\n'];
    let n = heading.len() as int;
    assert forall|j: int| 0 <= j < n implies s[j] != '\n' by {
        assert(heading.contains(heading[j]));
        assert(s[j] == heading[j]);
    }
    lemma_until(s, '\n', n);
    assert(s.skip(n + 1) =~= Seq::<char>::empty());
    assert(text_lines(s.skip(n + 1)) =~= Seq::<Seq<char>>::empty());
}

proof fn lemma_no_rows(table: Seq<char>)
    requires
        text_lines(table).len() <= 1,
    ensures
        confidences(table) == Seq::<Seq<char>>::empty(),
{
    reveal(Seq::filter);
    assert(rows_of(table) =~= Seq::<Seq<char>>::empty());
    assert(confidences(table) =~= Seq::<Seq<char>>::empty());
}

/// A table: its heading, and rows of columns, each ended by a line feed.
pub open spec fn table_of(heading: Seq<char>, rows: Seq<Seq<Seq<char>>>) -> Seq<char>
    decreases rows.len(),
{
    if rows.len() == 0 {
        heading + seq!['\n']
    } else {
        table_of(heading, rows.drop_last()) + with_between(rows.last(), '\t') + seq!['\n']
    }
}

/// Whether these may be the columns of a row that stands on one line.
pub open spec fn is_row(columns: Seq<Seq<char>>) -> bool {
    &&& are_columns(columns)
    &&& !with_between(columns, '\t').contains('\n')
    &&& with_between(columns, '\t').len() > 0
    &&& with_between(columns, '\t').last() != '\r'
}

/// In a table whose rows have twelve columns each, every row gives one confidence,
/// in the order of the rows: its eleventh column, less the white space around it.
pub proof fn law_every_row_is_rated(heading: Seq<char>, rows: Seq<Seq<Seq<char>>>, k: int)
    requires
        !heading.contains('\n'),
        forall|i: int| 0 <= i < rows.len() ==> is_row(#[trigger] rows[i]) && rows[i].len() >= 12,
        0 <= k <= rows.len(),
    ensures
        confidences(table_of(heading, rows)).len() == rows.len(),
        k < rows.len() ==> confidences(table_of(heading, rows))[k] == trimmed(rows[k][10]),
    decreases rows.len(),
{
    if rows.len() == 0 {
        lemma_heading(heading);
        lemma_no_rows(heading + seq!['\n']);
    } else {
        let front = rows.drop_last();
        assert forall|i: int| 0 <= i < front.len() implies is_row(#[trigger] front[i])
            && front[i].len() >= 12 by {
            assert(front[i] == rows[i]);
        }
        law_every_row_is_rated(heading, front, if k < front.len() { k } else { 0 });
        let table = table_of(heading, front);
        assert(table.last() == '\n');
        assert(is_row(rows.last()) && rows.last().len() >= 12);
        law_confidences(heading, table, rows.last());
        if k < front.len() {
            assert(front[k] == rows[k]);
        }
    }
}

} // verus!
