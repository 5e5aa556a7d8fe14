//! The commands of the program.

use vstd::prelude::*;
use vstd::string::*;

use crate::engine::{copy_spec, copy_to_clipboard, run_ocr, run_ocr_spec, OcrResult, OcrResultView};
use crate::host::{agrees, put_input, Log, Session, Step, Stop, StopView};
use crate::json::{all_plain, json_list, quoted_list, to_json};
use crate::lang::{detect_lang, detect_lang_spec, list_langs, list_langs_spec};
use crate::options::{parse_common, parsed, OcrOptions, OptionsView};
use crate::text::{join3, same, texts, trim, trimmed};

verus! {

/// What a command prints at its end.
#[derive(Debug)]
pub enum Output {
    /// This line.
    Line(String),
    /// This result, as JSON.
    Json(OcrResult),
    /// A keyboard layout and a language, as JSON.
    Lang { layout: String, lang: String },
    /// That the text was copied, as JSON.
    Copied,
    /// The name and version of the program.
    Version,
}

/// The contents of an [`Output`].
pub enum OutputView {
    Line(Seq<char>),
    Json(OcrResultView),
    Lang { layout: Seq<char>, lang: Seq<char> },
    Copied,
    Version,
}

impl View for Output {
    type V = OutputView;

    open spec fn view(&self) -> OutputView {
        match *self {
            Output::Line(line) => OutputView::Line(line@),
            Output::Json(result) => OutputView::Json(result@),
            Output::Lang { layout, lang } => OutputView::Lang { layout: layout@, lang: lang@ },
            Output::Copied => OutputView::Copied,
            Output::Version => OutputView::Version,
        }
    }
}

/// How a result is printed: as JSON, or the text alone.
pub open spec fn shown(result: OcrResultView, json: bool) -> OutputView {
    if json {
        OutputView::Json(result)
    } else {
        OutputView::Line(result.text)
    }
}

/// How a result is printed: as JSON, or the text alone.
pub fn print_result(result: OcrResult, json: bool) -> (r: Output)
    ensures
        r@ == shown(result@, json),
{
    if json {
        Output::Json(result)
    } else {
        Output::Line(result.text)
    }
}

/// Makes a reading and shows it.
pub open spec fn show_spec(opts: OptionsView, log: Log) -> Step<OutputView> {
    match run_ocr_spec(opts, log) {
        (next, Ok(result)) => (next, Ok(shown(result, opts.json))),
        (next, Err(stop)) => (next, Err(stop)),
    }
}

fn show(opts: OcrOptions, s: &mut Session) -> (r: Result<Output, Stop>)
    ensures
        final(s)@ == show_spec(opts@, old(s)@).0,
        agrees(r, show_spec(opts@, old(s)@).1),
{
    let json: bool = opts.json;
    let result: OcrResult = run_ocr(opts, s)?;
    Ok(print_result(result, json))
}

/// The command `region`: reads a region of the screen.
pub open spec fn cmd_region_spec(raw: Seq<Seq<char>>, log: Log) -> Step<OutputView> {
    match parsed(raw) {
        Ok(p) => show_spec(OptionsView { region: true, ..p.opts }, log),
        Err(stop) => (log, Err(stop)),
    }
}

/// The command `region`: reads a region of the screen.
pub fn cmd_region(raw: &[String], s: &mut Session) -> (r: Result<Output, Stop>)
    ensures
        final(s)@ == cmd_region_spec(texts(raw@), old(s)@).0,
        agrees(r, cmd_region_spec(texts(raw@), old(s)@).1),
{
    let (opts, _) = parse_common(raw)?;
    show(OcrOptions { region: true, ..opts }, s)
}

/// The command `full`: reads the whole screen.
pub open spec fn cmd_full_spec(raw: Seq<Seq<char>>, log: Log) -> Step<OutputView> {
    match parsed(raw) {
        Ok(p) => show_spec(OptionsView { region: false, ..p.opts }, log),
        Err(stop) => (log, Err(stop)),
    }
}

/// The command `full`: reads the whole screen.
pub fn cmd_full(raw: &[String], s: &mut Session) -> (r: Result<Output, Stop>)
    ensures
        final(s)@ == cmd_full_spec(texts(raw@), old(s)@).0,
        agrees(r, cmd_full_spec(texts(raw@), old(s)@).1),
{
    let (opts, _) = parse_common(raw)?;
    show(OcrOptions { region: false, ..opts }, s)
}

/// How the command `file` is used.
pub open spec fn file_usage() -> Seq<char> {
    "usage: textify file <path> [--lang LANG] [--json]"@
}

/// The command `file`: reads an image file.
pub open spec fn cmd_file_spec(raw: Seq<Seq<char>>, log: Log) -> Step<OutputView> {
    match parsed(raw) {
        Ok(p) => if p.positional.len() == 0 || p.positional[0].len() == 0 {
            (log, Err(StopView::Fail(file_usage())))
        } else {
            show_spec(OptionsView { file: Some(p.positional[0]), ..p.opts }, log)
        },
        Err(stop) => (log, Err(stop)),
    }
}

/// The command `file`: reads an image file.
pub fn cmd_file(raw: &[String], s: &mut Session) -> (r: Result<Output, Stop>)
    ensures
        final(s)@ == cmd_file_spec(texts(raw@), old(s)@).0,
        agrees(r, cmd_file_spec(texts(raw@), old(s)@).1),
{
    let (opts, positional) = parse_common(raw)?;
    assert(texts(positional@).len() == positional@.len());
    if positional.len() == 0 || positional[0].as_str().is_empty() {
        return Err(
            Stop::Fail("usage: textify file <path> [--lang LANG] [--json]".to_owned()),
        );
    }
    assert(texts(positional@)[0] == positional@[0]@);
    let file: Option<String> = Some(positional[0].clone());
    show(OcrOptions { file, ..opts }, s)
}

/// The line for a list of languages, given its JSON text if there is one.
pub open spec fn line_for(langs: Seq<Seq<char>>, json: Option<Seq<char>>) -> Seq<char> {
    match json {
        Some(text) => if langs.len() == 0 {
            "[]"@
        } else {
            text
        },
        None => "[]"@,
    }
}

/// The line for a list of languages, given its JSON text if there is one.
pub fn langs_line(langs: &Vec<String>, json: Option<String>) -> (r: String)
    ensures
        r@ == line_for(
            texts(langs@),
            match json {
                Some(text) => Some(text@),
                None => None,
            },
        ),
{
    match json {
        Some(text) => if langs.len() == 0 {
            "[]".to_owned()
        } else {
            text
        },
        None => "[]".to_owned(),
    }
}

/// The command `langs`: lists the languages that are installed.
pub open spec fn cmd_langs_spec(log: Log) -> Step<OutputView> {
    match list_langs_spec(log) {
        (next, Ok(langs)) => (next, Ok(OutputView::Line(line_for(langs, json_list(langs))))),
        (next, Err(stop)) => (next, Err(stop)),
    }
}

/// The command `langs`: lists the languages that are installed.
pub fn cmd_langs(s: &mut Session) -> (r: Result<Output, Stop>)
    ensures
        final(s)@ == cmd_langs_spec(old(s)@).0,
        agrees(r, cmd_langs_spec(old(s)@).1),
        (match (r, list_langs_spec(old(s)@).1) {
            (Ok(output), Ok(langs)) => all_plain(langs) ==> output@ == OutputView::Line(
                quoted_list(langs),
            ),
            _ => true,
        }),
{
    let langs: Vec<String> = list_langs(s)?;
    proof {
        reveal_strlit("[]");
        if langs@.len() == 0 {
            assert(quoted_list(texts(langs@)) =~= "[]"@);
        }
    }
    let json: Option<String> = match to_json(&langs) {
        Ok(text) => Some(text),
        Err(_) => None,
    };
    Ok(Output::Line(langs_line(&langs, json)))
}

/// How the command `copy` is used.
pub open spec fn copy_usage() -> Seq<char> {
    "usage: printf '%s' \"text\" | textify copy"@
}

/// Puts `text` on the clipboard, unless it is blank.
pub open spec fn copied_from(text: Seq<char>, log: Log) -> Step<OutputView> {
    if trimmed(text).len() == 0 {
        (log, Err(StopView::Fail(copy_usage())))
    } else {
        match copy_spec(text, log) {
            (next, Ok(())) => (next, Ok(OutputView::Copied)),
            (next, Err(stop)) => (next, Err(stop)),
        }
    }
}

/// Puts the standard input on the clipboard.
pub open spec fn copy_input(log: Log) -> Step<OutputView> {
    match put_input(log) {
        (next, Ok(text)) => copied_from(text, next),
        (next, Err(stop)) => (next, Err(stop)),
    }
}

/// The command `copy`: puts the standard input on the clipboard.
pub open spec fn cmd_copy_spec(raw: Seq<Seq<char>>, log: Log) -> Step<OutputView> {
    if raw.len() > 0 {
        (log, Err(StopView::Fail(copy_usage())))
    } else {
        copy_input(log)
    }
}

/// The command `copy`: puts the standard input on the clipboard. It takes no
/// arguments, since a process listing would show them.
pub fn cmd_copy(raw: &[String], s: &mut Session) -> (r: Result<Output, Stop>)
    ensures
        final(s)@ == cmd_copy_spec(texts(raw@), old(s)@).0,
        agrees(r, cmd_copy_spec(texts(raw@), old(s)@).1),
{
    assert(texts(raw@).len() == raw@.len());
    if raw.len() > 0 {
        return Err(Stop::Fail("usage: printf '%s' \"text\" | textify copy".to_owned()));
    }
    let text: String = s.ask_input()?;
    if trim(text.as_str()).as_str().is_empty() {
        return Err(Stop::Fail("usage: printf '%s' \"text\" | textify copy".to_owned()));
    }
    copy_to_clipboard(text.as_str(), s)?;
    Ok(Output::Copied)
}

/// The command `lang`: tells the layout and the language that goes with it.
pub open spec fn cmd_lang_spec(log: Log) -> Step<OutputView> {
    match detect_lang_spec(log) {
        (next, Ok((layout, lang))) => (next, Ok(OutputView::Lang { layout, lang })),
        (next, Err(stop)) => (next, Err(stop)),
    }
}

/// The command `lang`: tells the layout and the language that goes with it.
pub fn cmd_lang(s: &mut Session) -> (r: Result<Output, Stop>)
    ensures
        final(s)@ == cmd_lang_spec(old(s)@).0,
        agrees(r, cmd_lang_spec(old(s)@).1),
{
    let (layout, lang) = detect_lang(s)?;
    Ok(Output::Lang { layout, lang })
}

/// How the program is used.
pub open spec fn usage() -> Seq<char> {
    "usage: textify <region|full|file|copy|lang|langs>"@
}

/// The message for a command that does not exist.
pub open spec fn unknown_command(word: Seq<char>) -> Seq<char> {
    "unknown command \""@ + word
        + "\"; usage: textify <region|full|file|copy|lang|langs>"@
}

/// Carries out a command line: the first word names the command.
pub open spec fn dispatch_spec(args: Seq<Seq<char>>, log: Log) -> Step<OutputView> {
    if args.len() == 0 {
        (log, Err(StopView::Fail(usage())))
    } else if args[0] == "region"@ {
        cmd_region_spec(args.skip(1), log)
    } else if args[0] == "full"@ {
        cmd_full_spec(args.skip(1), log)
    } else if args[0] == "file"@ {
        cmd_file_spec(args.skip(1), log)
    } else if args[0] == "copy"@ {
        cmd_copy_spec(args.skip(1), log)
    } else if args[0] == "lang"@ {
        cmd_lang_spec(log)
    } else if args[0] == "langs"@ {
        cmd_langs_spec(log)
    } else if args[0] == "--version"@ || args[0] == "version"@ {
        (log, Ok(OutputView::Version))
    } else {
        (log, Err(StopView::Fail(unknown_command(args[0]))))
    }
}

/// Carries out a command line: the first word names the command.
pub fn dispatch(args: &[String], s: &mut Session) -> (r: Result<Output, Stop>)
    ensures
        final(s)@ == dispatch_spec(texts(args@), old(s)@).0,
        agrees(r, dispatch_spec(texts(args@), old(s)@).1),
{
    assert(texts(args@).len() == args@.len());
    if args.len() == 0 {
        return Err(
            Stop::Fail("usage: textify <region|full|file|copy|lang|langs>".to_owned()),
        );
    }
    let word: &str = args[0].as_str();
    let raw: &[String] = vstd::slice::slice_subrange(args, 1, args.len());
    assert(texts(args@)[0] == word@);
    assert(texts(raw@) =~= texts(args@).skip(1));
    if same(word, "region") {
        cmd_region(raw, s)
    } else if same(word, "full") {
        cmd_full(raw, s)
    } else if same(word, "file") {
        cmd_file(raw, s)
    } else if same(word, "copy") {
        cmd_copy(raw, s)
    } else if same(word, "lang") {
        cmd_lang(s)
    } else if same(word, "langs") {
        cmd_langs(s)
    } else if same(word, "--version") || same(word, "version") {
        Ok(Output::Version)
    } else {
        Err(
            Stop::Fail(
                join3(
                    "unknown command \"",
                    word,
                    "\"; usage: textify <region|full|file|copy|lang|langs>",
                ),
            ),
        )
    }
}

} // verus!
