//! The OCR engine: it takes slurp, grim, magick, tesseract and wl-copy through
//! one reading of the screen or of an image file.

use vstd::prelude::*;
use vstd::string::*;
use vstd::utf8::encode_utf8;

use crate::host::{
    agrees, outcome, put_flag, put_pipe, put_run, tolerate, tolerated, Log, Piping, Request,
    RequestView, Running, Session, Step, Stop, StopView,
};
use crate::lang::{resolve_lang, resolve_lang_spec};
use crate::options::{OcrOptions, OptionsView};
use crate::tempfile::{kept, new_temp_spec, released, TempFile, TempFileView};
use crate::text::{
    chars_of, join2, lemma_until, lines, list1, list3, parse_u32, pieces, split, string_of,
    text_lines, texts, trim, trim_end, trimmed, trimmed_end, u32_value, until,
};
use crate::tools::{
    bad_exit, bad_exit_message, not_run, not_run_message, run, run_spec, which, which_spec,
};
use crate::unicode::{bytes_of, decode_lossy, utf8_lossy};

verus! {

/// What a reading came to.
#[derive(Debug)]
pub struct OcrResult {
    /// The text, without white space at its end.
    pub text: String,
    /// The language that it was read in.
    pub lang: String,
    /// Whether the text is on the clipboard.
    pub copied: bool,
    /// The image file, or `screen`.
    pub source: String,
    /// The confidence of each word as the recognizer wrote it. The mean of
    /// those that are numbers from zero up is the confidence of the reading.
    pub confidence: Vec<String>,
}

/// The contents of an [`OcrResult`].
pub struct OcrResultView {
    pub text: Seq<char>,
    pub lang: Seq<char>,
    pub copied: bool,
    pub source: Seq<char>,
    pub confidence: Seq<Seq<char>>,
}

impl View for OcrResult {
    type V = OcrResultView;

    open spec fn view(&self) -> OcrResultView {
        OcrResultView {
            text: self.text@,
            lang: self.lang@,
            copied: self.copied,
            source: self.source@,
            confidence: texts(self.confidence@),
        }
    }
}

/// Runs the program `name` at `program`, and gives what it printed, in bytes.
pub open spec fn tool_spec(
    name: Seq<char>,
    program: Seq<u8>,
    args: Seq<Seq<char>>,
    log: Log,
) -> Step<Seq<u8>> {
    match put_run(log, program, args, true, true) {
        (next, Ok(Running::Failed(reason))) => (
            next,
            Err(StopView::Fail(not_run(name, reason@))),
        ),
        (next, Ok(Running::Exited { success, status, stdout, stderr })) => if success {
            (next, Ok(stdout@))
        } else {
            (
                next,
                Err(StopView::Fail(bad_exit(name, status@, trimmed(utf8_lossy(stderr@))))),
            )
        },
        (next, Err(stop)) => (next, Err(stop)),
    }
}

fn run_tool<'a>(
    name: &str,
    program: Vec<u8>,
    args: Vec<String>,
    s: &mut Session<'a>,
) -> (r: Result<&'a Vec<u8>, Stop>)
    ensures
        final(s)@ == tool_spec(name@, program@, texts(args@), old(s)@).0,
        agrees(r, tool_spec(name@, program@, texts(args@), old(s)@).1),
{
    match s.ask_run(program, args, true, true)? {
        Running::Failed(reason) => Err(Stop::Fail(not_run_message(name, reason.as_str()))),
        Running::Exited { success, status, stdout, stderr } => if *success {
            Ok(stdout)
        } else {
            let said: String = trim(decode_lossy(stderr.as_slice()).as_str());
            Err(Stop::Fail(bad_exit_message(name, status.as_str(), said.as_str())))
        },
    }
}

/// Captures the region that was printed as `output` into `png`.
pub open spec fn region_shot(
    grim: Seq<u8>,
    png: TempFileView,
    output: Seq<char>,
    log: Log,
) -> Step<()> {
    let region = trimmed(output);
    if region.len() == 0 {
        (log, Err(StopView::Fail("selection cancelled"@)))
    } else {
        match tool_spec("grim"@, grim, seq!["-g"@, region, utf8_lossy(png.path)], log) {
            (next, Ok(_)) => (next, Ok(())),
            (next, Err(stop)) => (next, Err(stop)),
        }
    }
}

/// Lets the user select a region and captures it into `png`.
pub open spec fn shoot_region_spec(
    slurp: Seq<u8>,
    grim: Seq<u8>,
    png: TempFileView,
    log: Log,
) -> Step<()> {
    match run_spec(slurp, Seq::empty(), log) {
        (next, Ok(output)) => region_shot(grim, png, output, next),
        (next, Err(stop)) => (next, Err(stop)),
    }
}

/// Captures a region into a new temporary file.
pub open spec fn region_into(slurp: Seq<u8>, grim: Seq<u8>, log: Log) -> Step<TempFileView> {
    match new_temp_spec("region"@, "png"@, log) {
        (next, Ok(png)) => kept(png, shoot_region_spec(slurp, grim, png, next)),
        (next, Err(stop)) => (next, Err(stop)),
    }
}

/// Captures a region with slurp at hand.
pub open spec fn region_with(slurp: Seq<u8>, log: Log) -> Step<TempFileView> {
    match which_spec("grim"@, log) {
        (next, Ok(grim)) => region_into(slurp, grim, next),
        (next, Err(stop)) => (next, Err(stop)),
    }
}

/// Captures a region of the screen, which the user selects, into a temporary file.
pub open spec fn capture_region_spec(log: Log) -> Step<TempFileView> {
    match which_spec("slurp"@, log) {
        (next, Ok(slurp)) => region_with(slurp, next),
        (next, Err(stop)) => (next, Err(stop)),
    }
}

fn shoot_region(slurp: &Vec<u8>, grim: Vec<u8>, png: &TempFile, s: &mut Session) -> (r: Result<
    (),
    Stop,
>)
    ensures
        final(s)@ == shoot_region_spec(slurp@, grim@, png@, old(s)@).0,
        agrees(r, shoot_region_spec(slurp@, grim@, png@, old(s)@).1),
{
    let none: Vec<String> = Vec::new();
    assert(texts(none@) =~= Seq::<Seq<char>>::empty());
    // slurp prints "x,y WxH".
    let output: String = run(slurp, none, s)?;
    let region: String = trim(output.as_str());
    if region.as_str().is_empty() {
        return Err(Stop::Fail("selection cancelled".to_owned()));
    }
    let target: String = decode_lossy(png.path().as_slice());
    run_tool("grim", grim, list3("-g", region.as_str(), target.as_str()), s)?;
    Ok(())
}

/// Captures a region of the screen, which the user selects, into a temporary file.
pub fn capture_region(s: &mut Session) -> (r: Result<TempFile, Stop>)
    ensures
        final(s)@ == capture_region_spec(old(s)@).0,
        agrees(r, capture_region_spec(old(s)@).1),
{
    let slurp: Vec<u8> = which("slurp", s)?;
    let grim: Vec<u8> = which("grim", s)?;
    let png: TempFile = TempFile::new("region", "png", s)?;
    let shot: Result<(), Stop> = shoot_region(&slurp, grim, &png, s);
    png.keep(shot, s)
}

/// Captures the whole screen into `png`.
pub open spec fn shoot_full_spec(grim: Seq<u8>, png: TempFileView, log: Log) -> Step<()> {
    match tool_spec("grim"@, grim, seq![utf8_lossy(png.path)], log) {
        (next, Ok(_)) => (next, Ok(())),
        (next, Err(stop)) => (next, Err(stop)),
    }
}

/// Captures the whole screen into a new temporary file.
pub open spec fn full_into(grim: Seq<u8>, log: Log) -> Step<TempFileView> {
    match new_temp_spec("full"@, "png"@, log) {
        (next, Ok(png)) => kept(png, shoot_full_spec(grim, png, next)),
        (next, Err(stop)) => (next, Err(stop)),
    }
}

/// Captures the whole screen into a temporary file.
pub open spec fn capture_full_spec(log: Log) -> Step<TempFileView> {
    match which_spec("grim"@, log) {
        (next, Ok(grim)) => full_into(grim, next),
        (next, Err(stop)) => (next, Err(stop)),
    }
}

fn shoot_full(grim: Vec<u8>, png: &TempFile, s: &mut Session) -> (r: Result<(), Stop>)
    ensures
        final(s)@ == shoot_full_spec(grim@, png@, old(s)@).0,
        agrees(r, shoot_full_spec(grim@, png@, old(s)@).1),
{
    let target: String = decode_lossy(png.path().as_slice());
    run_tool("grim", grim, list1(target.as_str()), s)?;
    Ok(())
}

/// Captures the whole screen into a temporary file.
pub fn capture_full(s: &mut Session) -> (r: Result<TempFile, Stop>)
    ensures
        final(s)@ == capture_full_spec(old(s)@).0,
        agrees(r, capture_full_spec(old(s)@).1),
{
    let grim: Vec<u8> = which("grim", s)?;
    let png: TempFile = TempFile::new("full", "png", s)?;
    let shot: Result<(), Stop> = shoot_full(grim, &png, s);
    png.keep(shot, s)
}

/// The number that `s` writes, or zero.
pub open spec fn pixels(s: Seq<char>) -> u32 {
    match u32_value(s) {
        Some(n) => n,
        None => 0,
    }
}

/// The width and height in a text of the form `WxH`; zero stands for what cannot be read.
pub open spec fn size_in(text: Seq<char>) -> (u32, u32) {
    let word = trimmed(text);
    let k = until(word, 'x');
    if k < word.len() {
        (pixels(word.take(k)), pixels(word.skip(k + 1)))
    } else {
        (0, 0)
    }
}

/// The width and height in a text of the form `WxH`.
pub fn parse_size(text: &str) -> (r: (u32, u32))
    ensures
        r == size_in(text@),
{
    let word: String = trim(text);
    let v: Vec<char> = chars_of(word.as_str());
    let mut i: usize = 0;
    while i < v.len() && v[i] != 'x'
        invariant
            i <= v@.len(),
            forall|j: int| 0 <= j < i ==> v@[j] != 'x',
        decreases v@.len() - i,
    {
        i = i + 1;
    }
    proof {
        lemma_until(v@, 'x', i as int);
    }
    if i == v.len() {
        return (0, 0);
    }
    assert(v@.take(i as int) =~= v@.subrange(0, i as int));
    assert(v@.skip(i + 1) =~= v@.subrange(i + 1, v@.len() as int));
    let w: String = string_of(vstd::slice::slice_subrange(v.as_slice(), 0, i));
    let h: String = string_of(vstd::slice::slice_subrange(v.as_slice(), i + 1, v.len()));
    let width: u32 = match parse_u32(w.as_str()) {
        Some(n) => n,
        None => 0,
    };
    let height: u32 = match parse_u32(h.as_str()) {
        Some(n) => n,
        None => 0,
    };
    (width, height)
}

/// Has identify at hand tell the size of an image.
pub open spec fn sized_by(identify: Seq<u8>, path: Seq<char>, log: Log) -> Step<(u32, u32)> {
    match put_run(log, identify, seq!["-format"@, "%wx%h"@, path], true, true) {
        (next, Ok(Running::Failed(reason))) => (
            next,
            Err(StopView::Fail(not_run("identify"@, reason@))),
        ),
        (next, Ok(Running::Exited { success, stdout, .. })) => (
            next,
            Ok(
                if success {
                    size_in(utf8_lossy(stdout@))
                } else {
                    (0, 0)
                },
            ),
        ),
        (next, Err(stop)) => (next, Err(stop)),
    }
}

/// Asks for the pixel dimensions of an image; zero stands for what is not known.
pub open spec fn image_size_spec(path: Seq<char>, log: Log) -> Step<(u32, u32)> {
    match which_spec("identify"@, log) {
        (next, Ok(identify)) => sized_by(identify, path, next),
        (next, Err(stop)) => (next, Err(stop)),
    }
}

/// The pixel dimensions of an image.
pub fn image_size(path: &str, s: &mut Session) -> (r: Result<(u32, u32), Stop>)
    ensures
        final(s)@ == image_size_spec(path@, old(s)@).0,
        agrees(r, image_size_spec(path@, old(s)@).1),
{
    let identify: Vec<u8> = which("identify", s)?;
    match s.ask_run(identify, list3("-format", "%wx%h", path), true, true)? {
        Running::Failed(reason) => Err(Stop::Fail(not_run_message("identify", reason.as_str()))),
        Running::Exited { success, stdout, .. } => if *success {
            Ok(parse_size(decode_lossy(stdout.as_slice()).as_str()))
        } else {
            Ok((0, 0))
        },
    }
}

/// Captures that are smaller than this in both directions are enlarged.
pub const SMALL: u32 = 1200;

/// Whether a capture of that size is enlarged.
pub open spec fn is_small(w: u32, h: u32) -> bool {
    0 < w < SMALL && 0 < h < SMALL
}

/// How magick prepares the image `src`: in grey, enlarged if it is small, and
/// lightly sharpened.
pub open spec fn magick_args(src: Seq<char>, w: u32, h: u32, target: Seq<char>) -> Seq<Seq<char>> {
    seq![src, "-colorspace"@, "Gray"@] + (if is_small(w, h) {
        seq!["-resize"@, "300%"@]
    } else {
        Seq::empty()
    }) + seq!["-sharpen"@, "0x0.5"@, target]
}

/// The arguments with which magick prepares the image `src`.
pub fn prepare_args(src: &str, w: u32, h: u32, target: &str) -> (r: Vec<String>)
    ensures
        texts(r@) == magick_args(src@, w, h, target@),
{
    let mut r: Vec<String> = list3(src, "-colorspace", "Gray");
    let ghost head = texts(r@);
    if w > 0 && h > 0 && w < SMALL && h < SMALL {
        r.push("-resize".to_owned());
        r.push("300%".to_owned());
        assert(texts(r@) =~= head + seq!["-resize"@, "300%"@]);
    }
    let ghost middle = texts(r@);
    r.push("-sharpen".to_owned());
    r.push("0x0.5".to_owned());
    r.push(target.to_owned());
    assert(texts(r@) =~= middle + seq!["-sharpen"@, "0x0.5"@, target@]);
    assert(texts(r@) =~= magick_args(src@, w, h, target@));
    r
}

/// Runs magick with those arguments.
pub open spec fn prepared_at(
    magick: Seq<u8>,
    args: Seq<Seq<char>>,
    log: Log,
) -> Step<()> {
    match put_run(log, magick, args, true, false) {
        (next, Ok(Running::Failed(reason))) => (
            next,
            Err(StopView::Fail(not_run("magick"@, reason@))),
        ),
        (next, Ok(Running::Exited { success, status, .. })) => if success {
            (next, Ok(()))
        } else {
            (next, Err(StopView::Fail("magick exited with "@ + status@)))
        },
        (next, Err(stop)) => (next, Err(stop)),
    }
}

/// Prepares the image `src` in the file `png`.
pub open spec fn prepare_spec(
    magick: Seq<u8>,
    src: Seq<char>,
    png: TempFileView,
    log: Log,
) -> Step<()> {
    match image_size_spec(src, log) {
        (next, Ok((w, h))) => prepared_at(
            magick,
            magick_args(src, w, h, utf8_lossy(png.path)),
            next,
        ),
        (next, Err(stop)) => (next, Err(stop)),
    }
}

/// Prepares the image `src` in a new temporary file.
pub open spec fn prepared_into(magick: Seq<u8>, src: Seq<char>, log: Log) -> Step<TempFileView> {
    match new_temp_spec("proc"@, "png"@, log) {
        (next, Ok(png)) => kept(png, prepare_spec(magick, src, png, next)),
        (next, Err(stop)) => (next, Err(stop)),
    }
}

/// Prepares the image `src` in a temporary file.
pub open spec fn preprocess_spec(src: Seq<char>, log: Log) -> Step<TempFileView> {
    match which_spec("magick"@, log) {
        (next, Ok(magick)) => prepared_into(magick, src, next),
        (next, Err(stop)) => (next, Err(stop)),
    }
}

fn prepare(magick: Vec<u8>, src: &str, png: &TempFile, s: &mut Session) -> (r: Result<(), Stop>)
    ensures
        final(s)@ == prepare_spec(magick@, src@, png@, old(s)@).0,
        agrees(r, prepare_spec(magick@, src@, png@, old(s)@).1),
{
    let (w, h) = image_size(src, s)?;
    let target: String = decode_lossy(png.path().as_slice());
    match s.ask_run(magick, prepare_args(src, w, h, target.as_str()), true, false)? {
        Running::Failed(reason) => Err(Stop::Fail(not_run_message("magick", reason.as_str()))),
        Running::Exited { success, status, .. } => if *success {
            Ok(())
        } else {
            Err(Stop::Fail(join2("magick exited with ", status.as_str())))
        },
    }
}

/// Prepares an image for the recognizer. A hard threshold would destroy the
/// edges of small glyphs, so this is gentle: grey, a modest enlargement of
/// small captures only, and a light sharpening.
pub fn preprocess(src: &str, s: &mut Session) -> (r: Result<TempFile, Stop>)
    ensures
        final(s)@ == preprocess_spec(src@, old(s)@).0,
        agrees(r, preprocess_spec(src@, old(s)@).1),
{
    let magick: Vec<u8> = which("magick", s)?;
    let png: TempFile = TempFile::new("proc", "png", s)?;
    let done: Result<(), Stop> = prepare(magick, src, &png, s);
    png.keep(done, s)
}

/// The arguments with which the recognizer reads the image `path`.
pub open spec fn read_args(path: Seq<char>, lang: Seq<char>) -> Seq<Seq<char>> {
    seq![path, "stdout"@, "-l"@, lang, "--psm"@, "6"@]
}

fn reading_args(path: &str, lang: &str) -> (r: Vec<String>)
    ensures
        texts(r@) == read_args(path@, lang@),
{
    let mut r: Vec<String> = list3(path, "stdout", "-l");
    let ghost head = texts(r@);
    r.push(lang.to_owned());
    r.push("--psm".to_owned());
    r.push("6".to_owned());
    assert(texts(r@) =~= head + seq![lang@, "--psm"@, "6"@]);
    assert(texts(r@) =~= read_args(path@, lang@));
    r
}

/// Has the recognizer at hand read an image.
pub open spec fn recognized(tesseract: Seq<u8>, path: Seq<char>, lang: Seq<char>, log: Log) -> Step<
    Seq<char>,
> {
    match tool_spec("tesseract"@, tesseract, read_args(path, lang), log) {
        (next, Ok(stdout)) => (next, Ok(utf8_lossy(stdout))),
        (next, Err(stop)) => (next, Err(stop)),
    }
}

/// Has the recognizer read an image.
pub open spec fn ocr_image_spec(path: Seq<char>, lang: Seq<char>, log: Log) -> Step<Seq<char>> {
    match which_spec("tesseract"@, log) {
        (next, Ok(tesseract)) => recognized(tesseract, path, lang, next),
        (next, Err(stop)) => (next, Err(stop)),
    }
}

/// Has the recognizer read an image, and gives the text.
pub fn ocr_image(path: &str, lang: &str, s: &mut Session) -> (r: Result<String, Stop>)
    ensures
        final(s)@ == ocr_image_spec(path@, lang@, old(s)@).0,
        agrees(r, ocr_image_spec(path@, lang@, old(s)@).1),
{
    let tesseract: Vec<u8> = which("tesseract", s)?;
    let stdout = run_tool("tesseract", tesseract, reading_args(path, lang), s)?;
    Ok(decode_lossy(stdout.as_slice()))
}

/// The rows of a table after its heading.
pub open spec fn rows_of(table: Seq<char>) -> Seq<Seq<char>> {
    let all = text_lines(table);
    if all.len() == 0 {
        all
    } else {
        all.skip(1)
    }
}

/// The confidence fields of the recognizer's table: the eleventh of the columns,
/// which a tab separates, in each row that has at least twelve.
pub open spec fn confidences(table: Seq<char>) -> Seq<Seq<char>> {
    rows_of(table).map_values(|row: Seq<char>| pieces(row, '\t')).filter(
        |columns: Seq<Seq<char>>| columns.len() >= 12,
    ).map_values(|columns: Seq<Seq<char>>| trimmed(columns[10]))
}

/// The confidence fields of the recognizer's table.
pub fn confidence_fields(table: &str) -> (r: Vec<String>)
    ensures
        texts(r@) == confidences(table@),
{
    let all: Vec<String> = lines(table);
    let ghost columns_of = |row: Seq<char>| pieces(row, '\t');
    let ghost wide = |columns: Seq<Seq<char>>| columns.len() >= 12;
    let ghost field = |columns: Seq<Seq<char>>| trimmed(columns[10]);
    let ghost rows = rows_of(table@).map_values(columns_of);
    let mut r: Vec<String> = Vec::new();
    let mut i: usize = 1;
    assert(rows.take(0).filter(wide).map_values(field) =~= Seq::<Seq<char>>::empty()) by {
        reveal(Seq::filter);
    }
    assert(texts(r@) =~= Seq::<Seq<char>>::empty());
    if all.len() == 0 {
        assert(rows =~= rows.take(0));
        return r;
    }
    while i < all.len()
        invariant
            1 <= i <= all@.len(),
            texts(all@) == text_lines(table@),
            columns_of == (|row: Seq<char>| pieces(row, '\t')),
            wide == (|columns: Seq<Seq<char>>| columns.len() >= 12),
            field == (|columns: Seq<Seq<char>>| trimmed(columns[10])),
            rows == rows_of(table@).map_values(columns_of),
            texts(r@) == rows.take(i - 1).filter(wide).map_values(field),
        decreases all@.len() - i,
    {
        let ghost before = texts(r@);
        let columns: Vec<String> = split(all[i].as_str(), '\t');
        proof {
            assert(rows[i - 1] == texts(columns@));
            assert(rows.take(i as int) =~= rows.take(i - 1).push(texts(columns@)));
            rows.take(i - 1).lemma_filter_push(texts(columns@), wide);
        }
        if columns.len() >= 12 {
            r.push(trim(columns[10].as_str()));
            assert(texts(r@) =~= before.push(trimmed(texts(columns@)[10])));
            assert(rows.take(i as int).filter(wide).map_values(field) =~= before.push(
                trimmed(texts(columns@)[10]),
            ));
        }
        i = i + 1;
    }
    assert(rows.take(i - 1) =~= rows);
    r
}

/// Has the recognizer, if it is at hand, tell its confidence.
pub open spec fn rated(tool: Option<Seq<u8>>, path: Seq<char>, lang: Seq<char>, log: Log) -> Step<
    Seq<Seq<char>>,
> {
    match tool {
        Some(tesseract) => match put_run(
            log,
            tesseract,
            read_args(path, lang).push("tsv"@),
            true,
            true,
        ) {
            (next, Ok(Running::Exited { success: true, stdout, .. })) => (
                next,
                Ok(confidences(utf8_lossy(stdout@))),
            ),
            (next, Ok(_)) => (next, Ok(Seq::empty())),
            (next, Err(stop)) => (next, Err(stop)),
        },
        None => (log, Ok(Seq::empty())),
    }
}

/// Has the recognizer tell its confidence; without an answer there are no fields.
pub open spec fn ocr_confidence_spec(path: Seq<char>, lang: Seq<char>, log: Log) -> Step<
    Seq<Seq<char>>,
> {
    match tolerated(which_spec("tesseract"@, log)) {
        (next, Ok(tool)) => rated(tool, path, lang, next),
        (next, Err(stop)) => (next, Err(stop)),
    }
}

/// The confidence of each word in an image. Low confidence is a sign of icons or
/// graphics rather than text.
pub fn ocr_confidence(path: &str, lang: &str, s: &mut Session) -> (r: Result<Vec<String>, Stop>)
    ensures
        final(s)@ == ocr_confidence_spec(path@, lang@, old(s)@).0,
        (match (r, ocr_confidence_spec(path@, lang@, old(s)@).1) {
            (Ok(fields), Ok(want)) => texts(fields@) == want,
            (Err(stop), Err(want)) => stop@ == want,
            _ => false,
        }),
{
    let none: Vec<String> = Vec::new();
    assert(texts(none@) =~= Seq::<Seq<char>>::empty());
    let found: Result<Vec<u8>, Stop> = which("tesseract", s);
    let tesseract: Vec<u8> = match tolerate(found)? {
        Some(tesseract) => tesseract,
        None => return Ok(none),
    };
    let mut args: Vec<String> = reading_args(path, lang);
    let ghost head = texts(args@);
    args.push("tsv".to_owned());
    assert(texts(args@) =~= head.push("tsv"@));
    match s.ask_run(tesseract, args, true, true)? {
        Running::Exited { success, stdout, .. } => if *success {
            Ok(confidence_fields(decode_lossy(stdout.as_slice()).as_str()))
        } else {
            Ok(none)
        },
        Running::Failed(_) => Ok(none),
    }
}

/// What the end of wl-copy comes to.
pub open spec fn copy_result(piping: Piping) -> Result<(), StopView> {
    match piping {
        Piping::NotStarted(reason) => Err(StopView::Fail(not_run("wl-copy"@, reason@))),
        Piping::NoInput => Err(StopView::Fail("wl-copy stdin unavailable"@)),
        Piping::NotWritten(reason) => Err(
            StopView::Fail("cannot write to wl-copy: "@ + reason@),
        ),
        Piping::NotAwaited(reason) => Err(StopView::Fail("wl-copy failed: "@ + reason@)),
        Piping::Exited { success, status } => if success {
            Ok(())
        } else {
            Err(StopView::Fail("wl-copy exited with "@ + status@))
        },
    }
}

/// Feeds `text` to wl-copy.
pub open spec fn piped(wl_copy: Seq<u8>, text: Seq<char>, log: Log) -> Step<()> {
    match put_pipe(log, wl_copy, text) {
        (next, Ok(piping)) => (next, copy_result(piping)),
        (next, Err(stop)) => (next, Err(stop)),
    }
}

/// Puts `text` on the clipboard.
pub open spec fn copy_spec(text: Seq<char>, log: Log) -> Step<()> {
    match which_spec("wl-copy"@, log) {
        (next, Ok(wl_copy)) => piped(wl_copy, text, next),
        (next, Err(stop)) => (next, Err(stop)),
    }
}

/// Puts `text` on the clipboard. It goes through the standard input of wl-copy,
/// so that no process listing shows it.
pub fn copy_to_clipboard(text: &str, s: &mut Session) -> (r: Result<(), Stop>)
    ensures
        final(s)@ == copy_spec(text@, old(s)@).0,
        agrees(r, copy_spec(text@, old(s)@).1),
{
    let wl_copy: Vec<u8> = which("wl-copy", s)?;
    match s.ask_pipe(wl_copy, text.to_owned())? {
        Piping::NotStarted(reason) => Err(
            Stop::Fail(not_run_message("wl-copy", reason.as_str())),
        ),
        Piping::NoInput => Err(Stop::Fail("wl-copy stdin unavailable".to_owned())),
        Piping::NotWritten(reason) => Err(
            Stop::Fail(join2("cannot write to wl-copy: ", reason.as_str())),
        ),
        Piping::NotAwaited(reason) => Err(Stop::Fail(join2("wl-copy failed: ", reason.as_str()))),
        Piping::Exited { success, status } => if *success {
            Ok(())
        } else {
            Err(Stop::Fail(join2("wl-copy exited with ", status.as_str())))
        },
    }
}

/// Puts a text on the clipboard if that is wanted and there is something to put
/// there. A failure only means that the text is not there.
pub open spec fn offer_spec(wanted: bool, text: Seq<char>, log: Log) -> Step<bool> {
    if wanted && trimmed(text).len() > 0 {
        match tolerated(copy_spec(text, log)) {
            (next, Ok(done)) => (next, Ok(done is Some)),
            (next, Err(stop)) => (next, Err(stop)),
        }
    } else {
        (log, Ok(false))
    }
}

fn offer(wanted: bool, text: &str, s: &mut Session) -> (r: Result<bool, Stop>)
    ensures
        final(s)@ == offer_spec(wanted, text@, old(s)@).0,
        agrees(r, offer_spec(wanted, text@, old(s)@).1),
{
    if wanted && !trim(text).as_str().is_empty() {
        let done: Result<(), Stop> = copy_to_clipboard(text, s);
        match tolerate(done)? {
            Some(()) => Ok(true),
            None => Ok(false),
        }
    } else {
        Ok(false)
    }
}

/// Offers the text that was read to the clipboard, and sums up.
pub open spec fn offered(
    wanted: bool,
    lang: Seq<char>,
    source: Seq<char>,
    text: Seq<char>,
    confidence: Seq<Seq<char>>,
    log: Log,
) -> Step<OcrResultView> {
    match offer_spec(wanted, text, log) {
        (next, Ok(copied)) => (
            next,
            Ok(OcrResultView { text: trimmed_end(text), lang, copied, source, confidence }),
        ),
        (next, Err(stop)) => (next, Err(stop)),
    }
}

/// Asks for the confidence in the text that was read, and offers it.
pub open spec fn rated_and_offered(
    wanted: bool,
    lang: Seq<char>,
    source: Seq<char>,
    input: Seq<char>,
    text: Seq<char>,
    log: Log,
) -> Step<OcrResultView> {
    match ocr_confidence_spec(input, lang, log) {
        (next, Ok(confidence)) => offered(wanted, lang, source, text, confidence, next),
        (next, Err(stop)) => (next, Err(stop)),
    }
}

/// Reads the image `input`, and offers the text to the clipboard.
pub open spec fn read_spec(
    wanted: bool,
    lang: Seq<char>,
    source: Seq<char>,
    input: Seq<char>,
    log: Log,
) -> Step<OcrResultView> {
    match ocr_image_spec(input, lang, log) {
        (next, Ok(text)) => rated_and_offered(wanted, lang, source, input, text, next),
        (next, Err(stop)) => (next, Err(stop)),
    }
}

fn read(wanted: bool, lang: &str, source: &str, input: &str, s: &mut Session) -> (r: Result<
    OcrResult,
    Stop,
>)
    ensures
        final(s)@ == read_spec(wanted, lang@, source@, input@, old(s)@).0,
        agrees(r, read_spec(wanted, lang@, source@, input@, old(s)@).1),
{
    let text: String = ocr_image(input, lang, s)?;
    let confidence: Vec<String> = ocr_confidence(input, lang, s)?;
    let copied: bool = offer(wanted, text.as_str(), s)?;
    Ok(
        OcrResult {
            text: trim_end(text.as_str()),
            lang: lang.to_owned(),
            copied,
            source: source.to_owned(),
            confidence,
        },
    )
}

/// Reads the prepared image and removes it, or reads `source` if there is none.
pub open spec fn read_prepared_spec(
    wanted: bool,
    lang: Seq<char>,
    source: Seq<char>,
    done: Option<TempFileView>,
    log: Log,
) -> Step<OcrResultView> {
    match done {
        Some(prepared) => released(
            prepared,
            read_spec(wanted, lang, "screen"@, utf8_lossy(prepared.path), log),
        ),
        None => read_spec(wanted, lang, "screen"@, source, log),
    }
}

/// Reads the capture `source`: prepared if that works, as it is otherwise.
pub open spec fn read_shot(wanted: bool, lang: Seq<char>, source: Seq<char>, log: Log) -> Step<
    OcrResultView,
> {
    match tolerated(preprocess_spec(source, log)) {
        (next, Ok(done)) => read_prepared_spec(wanted, lang, source, done, next),
        (next, Err(stop)) => (next, Err(stop)),
    }
}

/// Reads the capture `shot`: prepared if that works, as it is otherwise. At the
/// end the capture and the prepared image are removed.
pub open spec fn read_capture_spec(
    wanted: bool,
    lang: Seq<char>,
    shot: TempFileView,
    log: Log,
) -> Step<OcrResultView> {
    released(shot, read_shot(wanted, lang, utf8_lossy(shot.path), log))
}

fn read_prepared(wanted: bool, lang: &str, shot: &TempFile, s: &mut Session) -> (r: Result<
    OcrResult,
    Stop,
>)
    ensures
        released(shot@, (final(s)@, outcome(r))) == read_capture_spec(
            wanted,
            lang@,
            shot@,
            old(s)@,
        ),
{
    let source: String = decode_lossy(shot.path().as_slice());
    let done: Result<TempFile, Stop> = preprocess(source.as_str(), s);
    match tolerate(done)? {
        Some(prepared) => {
            let input: String = decode_lossy(prepared.path().as_slice());
            let result: Result<OcrResult, Stop> = read(wanted, lang, "screen", input.as_str(), s);
            prepared.release(result, s)
        },
        None => read(wanted, lang, "screen", source.as_str(), s),
    }
}

fn read_capture(wanted: bool, lang: &str, shot: TempFile, s: &mut Session) -> (r: Result<
    OcrResult,
    Stop,
>)
    ensures
        final(s)@ == read_capture_spec(wanted, lang@, shot@, old(s)@).0,
        agrees(r, read_capture_spec(wanted, lang@, shot@, old(s)@).1),
{
    let result: Result<OcrResult, Stop> = read_prepared(wanted, lang, &shot, s);
    shot.release(result, s)
}

/// Reads the image file `path`, as it is.
pub open spec fn read_file_spec(wanted: bool, lang: Seq<char>, path: Seq<char>, log: Log) -> Step<
    OcrResultView,
> {
    match put_flag(log, RequestView::IsFile { path: encode_utf8(path) }) {
        (l1, Ok(true)) => read_spec(wanted, lang, path, path, l1),
        (l1, Ok(false)) => (l1, Err(StopView::Fail("file not found: "@ + path))),
        (l1, Err(stop)) => (l1, Err(stop)),
    }
}

/// Captures the screen, a region of it or the whole.
pub open spec fn capture_spec(region: bool, log: Log) -> Step<TempFileView> {
    if region {
        capture_region_spec(log)
    } else {
        capture_full_spec(log)
    }
}

/// Captures the screen and reads the capture.
pub open spec fn read_screen(
    wanted: bool,
    region: bool,
    lang: Seq<char>,
    log: Log,
) -> Step<OcrResultView> {
    match capture_spec(region, log) {
        (next, Ok(shot)) => read_capture_spec(wanted, lang, shot, next),
        (next, Err(stop)) => (next, Err(stop)),
    }
}

/// One reading, as the options ask for it.
pub open spec fn run_ocr_spec(opts: OptionsView, log: Log) -> Step<OcrResultView> {
    match resolve_lang_spec(opts.lang, log) {
        (next, Ok(lang)) => match opts.file {
            Some(path) => read_file_spec(opts.copy, lang, path, next),
            None => read_screen(opts.copy, opts.region, lang, next),
        },
        (next, Err(stop)) => (next, Err(stop)),
    }
}

/// One reading: settles the language, takes the image file or captures the
/// screen, prepares a capture, reads the text, and offers it to the clipboard.
pub fn run_ocr(opts: OcrOptions, s: &mut Session) -> (r: Result<OcrResult, Stop>)
    ensures
        final(s)@ == run_ocr_spec(opts@, old(s)@).0,
        agrees(r, run_ocr_spec(opts@, old(s)@).1),
{
    let lang: String = resolve_lang(opts.lang.as_str(), s)?;
    match &opts.file {
        Some(path) => if s.ask_flag(Request::IsFile { path: bytes_of(path.as_str()) })? {
            read(opts.copy, lang.as_str(), path.as_str(), path.as_str(), s)
        } else {
            Err(Stop::Fail(join2("file not found: ", path.as_str())))
        },
        None => {
            let shot: TempFile = if opts.region {
                capture_region(s)?
            } else {
                capture_full(s)?
            };
            read_capture(opts.copy, lang.as_str(), shot, s)
        },
    }
}

} // verus!
