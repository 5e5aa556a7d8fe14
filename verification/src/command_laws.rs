//! What holds of the command line and of the commands.

use vstd::prelude::*;

use crate::cli::{
    cmd_copy_spec, dispatch_spec, line_for, shown, unknown_command, Output, OutputView,
};
use crate::engine::{copy_spec, run_ocr_spec, OcrResult, OcrResultView};
use crate::host::{agrees, outcome, put_input, Log, Reply, Request, RequestView, Stop, StopView};
use crate::json::{is_plain, json_list, quoted_list};
use crate::lang::{detect_lang_spec, list_langs_spec};
use crate::options::{needs_value, parsed, parsed_from, OcrOptions, OptionsView, Parsed};
use crate::reading_laws::{copied_in, law_copy, lemma_blank_trims, uncopied_in};
use crate::tempfile::TempFile;
use crate::text::texts;
use crate::text_laws::blank;
use crate::tidy::ends_here;
use crate::tool_laws::{grows, lemma_grows_on};

verus! {

proof fn lemma_parsed_on(a: Seq<Seq<char>>, b: Seq<Seq<char>>, i: int, so_far: Parsed)
    requires
        0 <= i <= a.len(),
        parsed_from(a, i, so_far) is Ok,
    ensures
        parsed_from(a + b, i, so_far) == parsed_from(
            a + b,
            a.len() as int,
            parsed_from(a, i, so_far)->Ok_0,
        ),
    decreases a.len() - i,
{
    let s = a + b;
    let opts = so_far.opts;
    if i < a.len() {
        assert(s[i] == a[i]);
        if a[i] == "--lang"@ {
            assert(i + 1 < a.len());
            assert(s[i + 1] == a[i + 1]);
            lemma_parsed_on(
                a,
                b,
                i + 2,
                Parsed { opts: OptionsView { lang: a[i + 1], ..opts }, ..so_far },
            );
        } else if a[i] == "--copy"@ {
            let p = Parsed { opts: OptionsView { copy: true, ..opts }, ..so_far };
            lemma_parsed_on(a, b, i + 1, p);
        } else if a[i] == "--json"@ {
            let p = Parsed { opts: OptionsView { json: true, ..opts }, ..so_far };
            lemma_parsed_on(a, b, i + 1, p);
        } else {
            let p = Parsed { positional: so_far.positional.push(a[i]), ..so_far };
            lemma_parsed_on(a, b, i + 1, p);
        }
    }
}

/// A command line is read word by word: `--json` and `--copy` switch on what they
/// name, `--lang` takes the word after it for the language, whatever that is, and
/// every other word is kept in its place. Without words, a region is read in the
/// language of the layout and copied, and the text alone is printed.
pub proof fn law_command_line(raw: Seq<Seq<char>>, word: Seq<char>)
    requires
        parsed(raw) is Ok,
    ensures
        ({
            let p = parsed(raw)->Ok_0;
            &&& parsed(Seq::empty()) == Ok::<Parsed, StopView>(
                Parsed {
                    opts: OptionsView {
                        region: true,
                        file: None,
                        lang: Seq::empty(),
                        copy: true,
                        json: false,
                    },
                    positional: Seq::empty(),
                },
            )
            &&& parsed(raw + seq!["--json"@]) == Ok::<Parsed, StopView>(
                Parsed { opts: OptionsView { json: true, ..p.opts }, ..p },
            )
            &&& parsed(raw + seq!["--copy"@]) == Ok::<Parsed, StopView>(
                Parsed { opts: OptionsView { copy: true, ..p.opts }, ..p },
            )
            &&& parsed(raw + seq!["--lang"@, word]) == Ok::<Parsed, StopView>(
                Parsed { opts: OptionsView { lang: word, ..p.opts }, ..p },
            )
            &&& parsed(raw + seq!["--lang"@]) == Err::<Parsed, StopView>(
                StopView::Fail("--lang"@ + " needs a value"@),
            )
            &&& word != "--json"@ && word != "--copy"@ && word != "--lang"@ ==> parsed(
                raw + seq![word],
            ) == Ok::<Parsed, StopView>(Parsed { positional: p.positional + seq![word], ..p })
        }),
{
    reveal_strlit("--json");
    reveal_strlit("--copy");
    reveal_strlit("--lang");
    let p = parsed(raw)->Ok_0;
    let start = Parsed {
        opts: crate::options::default_options(),
        positional: Seq::<Seq<char>>::empty(),
    };
    let n = raw.len() as int;
    assert("--json"@[2] == 'j' && "--copy"@[2] == 'c' && "--lang"@[2] == 'l');
    lemma_parsed_on(raw, seq!["--json"@], 0, start);
    lemma_parsed_on(raw, seq!["--copy"@], 0, start);
    lemma_parsed_on(raw, seq!["--lang"@, word], 0, start);
    lemma_parsed_on(raw, seq!["--lang"@], 0, start);
    lemma_parsed_on(raw, seq![word], 0, start);
    let a = raw + seq!["--json"@];
    let b = raw + seq!["--copy"@];
    let c = raw + seq!["--lang"@, word];
    let d = raw + seq!["--lang"@];
    let e = raw + seq![word];
    assert(a[n] == "--json"@ && b[n] == "--copy"@ && c[n] == "--lang"@ && c[n + 1] == word);
    assert(d[n] == "--lang"@ && e[n] == word);
    let json = Parsed { opts: OptionsView { json: true, ..p.opts }, ..p };
    assert(parsed_from(a, n + 1, json) == Ok::<Parsed, StopView>(json));
    let copy = Parsed { opts: OptionsView { copy: true, ..p.opts }, ..p };
    assert(parsed_from(b, n + 1, copy) == Ok::<Parsed, StopView>(copy));
    let lang = Parsed { opts: OptionsView { lang: word, ..p.opts }, ..p };
    assert(parsed_from(c, n + 2, lang) == Ok::<Parsed, StopView>(lang));
    let plain = Parsed { positional: p.positional.push(word), ..p };
    assert(p.positional.push(word) =~= p.positional + seq![word]);
    assert(parsed_from(e, n + 1, plain) == Ok::<Parsed, StopView>(plain));
}

proof fn lemma_parsed_stops(raw: Seq<Seq<char>>, i: int, so_far: Parsed)
    requires
        0 <= i <= raw.len(),
        parsed_from(raw, i, so_far) is Err,
    ensures
        raw.len() > 0,
        raw.last() == "--lang"@,
        i < raw.len(),
        parsed_from(raw.drop_last(), i, so_far) is Ok,
    decreases raw.len() - i,
{
    let opts = so_far.opts;
    let front = raw.drop_last();
    if i < front.len() {
        assert(front[i] == raw[i]);
    }
    if raw[i] == "--lang"@ {
        if i + 1 < raw.len() {
            let p = Parsed { opts: OptionsView { lang: raw[i + 1], ..opts }, ..so_far };
            lemma_parsed_stops(raw, i + 2, p);
            assert(front[i + 1] == raw[i + 1]);
        }
    } else if raw[i] == "--copy"@ {
        let p = Parsed { opts: OptionsView { copy: true, ..opts }, ..so_far };
        lemma_parsed_stops(raw, i + 1, p);
    } else if raw[i] == "--json"@ {
        let p = Parsed { opts: OptionsView { json: true, ..opts }, ..so_far };
        lemma_parsed_stops(raw, i + 1, p);
    } else {
        let p = Parsed { positional: so_far.positional.push(raw[i]), ..so_far };
        lemma_parsed_stops(raw, i + 1, p);
    }
}

/// A command line is refused only if it ends in a `--lang` without its value.
pub proof fn law_command_line_is_refused(raw: Seq<Seq<char>>)
    requires
        parsed(raw) is Err,
    ensures
        raw.len() > 0,
        raw.last() == "--lang"@,
        parsed(raw.drop_last()) is Ok,
        parsed(raw) == Err::<Parsed, StopView>(StopView::Fail("--lang"@ + " needs a value"@)),
{
    let start = Parsed {
        opts: crate::options::default_options(),
        positional: Seq::<Seq<char>>::empty(),
    };
    lemma_parsed_stops(raw, 0, start);
    law_command_line(raw.drop_last(), "--lang"@);
    assert(raw =~= raw.drop_last() + seq!["--lang"@]);
}

/// Whether a command makes the reading that `opts` ask for, and prints the whole
/// result or its text.
pub open spec fn shows(
    opts: OptionsView,
    log: Log,
    next: Log,
    r: Result<OutputView, StopView>,
) -> bool {
    let (last, reading) = run_ocr_spec(opts, log);
    &&& next == last
    &&& reading matches Ok(result) ==> r == Ok::<OutputView, StopView>(
        if opts.json {
            OutputView::Json(result)
        } else {
            OutputView::Line(result.text)
        },
    )
    &&& reading matches Err(stop) ==> r == Err::<OutputView, StopView>(stop)
}

/// The commands `region`, `full` and `file` make a reading: of a region, of the
/// whole screen, or of the file that the first word after the options names.
pub proof fn law_reading_commands(raw: Seq<Seq<char>>, log: Log)
    ensures
        ({
            let (n1, region) = dispatch_spec(seq!["region"@] + raw, log);
            let (n2, full) = dispatch_spec(seq!["full"@] + raw, log);
            let (n3, file) = dispatch_spec(seq!["file"@] + raw, log);
            &&& parsed(raw) matches Err(stop) ==> {
                &&& (n1, region) == (log, Err::<OutputView, StopView>(stop))
                &&& (n2, full) == (log, Err::<OutputView, StopView>(stop))
                &&& (n3, file) == (log, Err::<OutputView, StopView>(stop))
            }
            &&& parsed(raw) matches Ok(p) ==> {
                let o = p.opts;
                let words = p.positional;
                &&& shows(
                    OptionsView {
                        region: true,
                        file: o.file,
                        lang: o.lang,
                        copy: o.copy,
                        json: o.json,
                    },
                    log,
                    n1,
                    region,
                )
                &&& shows(
                    OptionsView {
                        region: false,
                        file: o.file,
                        lang: o.lang,
                        copy: o.copy,
                        json: o.json,
                    },
                    log,
                    n2,
                    full,
                )
                &&& words.len() > 0 && words[0].len() > 0 ==> shows(
                    OptionsView {
                        region: o.region,
                        file: Some(words[0]),
                        lang: o.lang,
                        copy: o.copy,
                        json: o.json,
                    },
                    log,
                    n3,
                    file,
                )
                &&& words.len() == 0 || words[0].len() == 0 ==> (n3, file) == (
                    log,
                    Err::<OutputView, StopView>(
                        StopView::Fail("usage: textify file <path> [--lang LANG] [--json]"@),
                    ),
                )
            }
        }),
{
    lemma_words();
    let a = seq!["region"@] + raw;
    let b = seq!["full"@] + raw;
    let c = seq!["file"@] + raw;
    assert(a.skip(1) =~= raw && b.skip(1) =~= raw && c.skip(1) =~= raw);
    assert(a[0] == "region"@ && b[0] == "full"@ && c[0] == "file"@);
}

proof fn lemma_words()
    ensures
        "region"@ != "full"@,
        "region"@ != "file"@,
        "region"@ != "copy"@,
        "region"@ != "lang"@,
        "region"@ != "langs"@,
        "full"@ != "file"@,
        "full"@ != "copy"@,
        "full"@ != "lang"@,
        "full"@ != "langs"@,
        "file"@ != "copy"@,
        "file"@ != "lang"@,
        "file"@ != "langs"@,
        "copy"@ != "lang"@,
        "copy"@ != "langs"@,
        "lang"@ != "langs"@,
        forall|w: Seq<char>|
            #![trigger w.len()]
            w == "version"@ || w == "--version"@ ==> w.len() >= 7 && w != "region"@ && w != "full"@
                && w != "file"@ && w != "copy"@ && w != "lang"@ && w != "langs"@,
{
    reveal_strlit("region");
    reveal_strlit("full");
    reveal_strlit("file");
    reveal_strlit("copy");
    reveal_strlit("lang");
    reveal_strlit("langs");
    reveal_strlit("version");
    reveal_strlit("--version");
    assert("full"@[0] == 'f' && "file"@[0] == 'f' && "copy"@[0] == 'c' && "lang"@[0] == 'l');
    assert("full"@[1] == 'u' && "file"@[1] == 'i');
    assert("region"@.len() == 6 && "lang"@.len() == 4 && "langs"@.len() == 5);
    assert("version"@.len() == 7 && "--version"@.len() == 9);
}

/// The command `copy` puts the standard input on the clipboard, the whole of it. It
/// says so only if the whole of it was handed to wl-copy with success. It refuses
/// words of its own, and an input of white space only.
pub proof fn law_copy_command(raw: Seq<Seq<char>>, log: Log)
    ensures
        ({
            let (next, r) = dispatch_spec(seq!["copy"@] + raw, log);
            let n = log.asked.len() as int;
            let usage = Err::<OutputView, StopView>(
                StopView::Fail("usage: printf '%s' \"text\" | textify copy"@),
            );
            &&& (next, r) == cmd_copy_spec(raw, log)
            &&& grows(log, next)
            &&& raw.len() > 0 ==> (next, r) == (log, usage)
            &&& raw.len() == 0 && ends_here(r) ==> {
                &&& next.asked[n] is ReadInput
                &&& next.replies[n] matches Reply::Input(input)
                &&& match input {
                    Err(reason) => r == Err::<OutputView, StopView>(StopView::Fail(reason@)),
                    Ok(text) => {
                        &&& blank(text@) ==> r == usage && next.asked.len() == n + 1
                        &&& !blank(text@) ==> next == copy_spec(text@, put_input(log).0).0
                        &&& !blank(text@) && r is Ok ==> r == Ok::<OutputView, StopView>(
                            OutputView::Copied,
                        ) && copied_in(text@, n + 1, next)
                        &&& !blank(text@) ==> (r matches Err(StopView::Fail(m)) ==> uncopied_in(
                            text@,
                            m,
                            n + 1,
                            next,
                        ))
                    },
                }
            }
        }),
{
    lemma_words();
    let a = seq!["copy"@] + raw;
    assert(a.skip(1) =~= raw);
    assert(a[0] == "copy"@);
    let (l1, input) = put_input(log);
    assert(grows(log, l1));
    if let Ok(text) = input {
        lemma_blank_trims(text);
        law_copy(text, l1);
        let l2 = copy_spec(text, l1).0;
        lemma_grows_on(log, l1, l2);
        assert(l2.asked[log.asked.len() as int] == l1.asked[log.asked.len() as int]);
    }
}

/// The other commands: `lang` tells the layout and the language, `langs` prints the
/// installed languages as a list in JSON, `version` tells the version, and any
/// other word is refused, as is an empty command line.
pub proof fn law_other_commands(raw: Seq<Seq<char>>, word: Seq<char>, log: Log)
    ensures
        dispatch_spec(Seq::empty(), log) == (
            log,
            Err::<OutputView, StopView>(
                StopView::Fail("usage: textify <region|full|file|copy|lang|langs>"@),
            ),
        ),
        dispatch_spec(seq!["version"@] + raw, log) == (
            log,
            Ok::<OutputView, StopView>(OutputView::Version),
        ),
        dispatch_spec(seq!["--version"@] + raw, log) == (
            log,
            Ok::<OutputView, StopView>(OutputView::Version),
        ),
        ({
            let (next, r) = dispatch_spec(seq!["lang"@] + raw, log);
            let (last, told) = detect_lang_spec(log);
            &&& next == last
            &&& told matches Ok(pair) ==> r == Ok::<OutputView, StopView>(
                OutputView::Lang { layout: pair.0, lang: pair.1 },
            )
            &&& told matches Err(stop) ==> r == Err::<OutputView, StopView>(stop)
        }),
        ({
            let (next, r) = dispatch_spec(seq!["langs"@] + raw, log);
            let (last, listed) = list_langs_spec(log);
            &&& next == last
            &&& listed matches Ok(langs) ==> r == Ok::<OutputView, StopView>(
                OutputView::Line(
                    if langs.len() > 0 && json_list(langs) is Some {
                        json_list(langs)->Some_0
                    } else {
                        "[]"@
                    },
                ),
            )
            &&& listed matches Err(stop) ==> r == Err::<OutputView, StopView>(stop)
        }),
        word != "region"@ && word != "full"@ && word != "file"@ && word != "copy"@ && word
            != "lang"@ && word != "langs"@ && word != "version"@ && word != "--version"@
            ==> dispatch_spec(seq![word] + raw, log) == (
            log,
            Err::<OutputView, StopView>(
                StopView::Fail(
                    "unknown command \""@ + word
                        + "\"; usage: textify <region|full|file|copy|lang|langs>"@,
                ),
            ),
        ),
{
    lemma_words();
    assert((seq!["version"@] + raw)[0] == "version"@);
    assert((seq!["--version"@] + raw)[0] == "--version"@);
    assert((seq!["lang"@] + raw)[0] == "lang"@);
    assert((seq!["langs"@] + raw)[0] == "langs"@);
    assert((seq![word] + raw)[0] == word);
    assert("version"@.len() >= 0 && "--version"@.len() >= 0);
}

/// A result is printed as a whole, or as its text alone.
pub proof fn law_printing(result: OcrResultView, json: bool)
    ensures
        json ==> shown(result, json) == OutputView::Json(result),
        !json ==> shown(result, json) == OutputView::Line(result.text),
{
}

/// The line for a list of languages is its JSON text, and an empty list where
/// there is no language or no such text.
pub proof fn law_langs_line(langs: Seq<Seq<char>>, json: Option<Seq<char>>)
    ensures
        langs.len() > 0 ==> (json matches Some(text) ==> line_for(langs, json) == text),
        langs.len() == 0 || json is None ==> line_for(langs, json) == "[]"@,
{
}

/// The words for what is wrong with a command line.
pub proof fn law_complaints(word: Seq<char>)
    ensures
        needs_value(word) == word + " needs a value"@,
        unknown_command(word) == "unknown command \""@ + word
            + "\"; usage: textify <region|full|file|copy|lang|langs>"@,
{
}

/// A list in JSON: one more text stands before the closing bracket, in quotes, after
/// a comma unless it is the first.
pub proof fn law_json_list(items: Seq<Seq<char>>, item: Seq<char>)
    ensures
        quoted_list(Seq::empty()) == seq!['[', ']'],
        quoted_list(items + seq![item]) == quoted_list(items).drop_last() + (if items.len() == 0 {
            Seq::empty()
        } else {
            seq![',']
        }) + seq!['"'] + item + seq!['"', ']'],
        is_plain(item) <==> !item.contains('"') && !item.contains('\\') && forall|c: char|
            #[trigger] item.contains(c) ==> c >= ' ',
{
    assert(quoted_list(Seq::empty()) =~= seq!['[', ']']);
    let all = items + seq![item];
    assert(all.drop_last() =~= items);
    assert(all.last() == item);
    let a = quoted_list(all);
    let b = quoted_list(items).drop_last() + (if items.len() == 0 {
        Seq::empty()
    } else {
        seq![',']
    }) + seq!['"'] + item + seq!['"', ']'];
    assert(a =~= b);
    if is_plain(item) {
        assert forall|c: char| #[trigger] item.contains(c) implies c >= ' ' && c != '"' && c
            != '\\' by {
            let i = choose|i: int| 0 <= i < item.len() && item[i] == c;
            assert(item[i] >= ' ');
        }
    } else {
        let i = choose|i: int|
            0 <= i < item.len() && !(#[trigger] item[i] >= ' ' && item[i] != '"' && item[i]
                != '\\');
        assert(item.contains(item[i]));
    }
}

/// A result, options and a temporary file are what their fields hold.
pub proof fn law_contents(result: OcrResult, opts: OcrOptions, file: TempFile)
    ensures
        result@.text == result.text@,
        result@.lang == result.lang@,
        result@.copied == result.copied,
        result@.source == result.source@,
        result@.confidence == texts(result.confidence@),
        opts@.region == opts.region,
        opts@.file is Some <==> opts.file is Some,
        opts.file matches Some(path) ==> opts@.file == Some(path@),
        opts@.lang == opts.lang@,
        opts@.copy == opts.copy,
        opts@.json == opts.json,
        file@.path == file.path@,
        file@.dir == file.dir@,
{
}

/// What a command prints, asks for or stops at is what it holds.
pub proof fn law_outcomes(output: Output, request: Request, stop: Stop)
    ensures
        output matches Output::Line(line) ==> output@ == OutputView::Line(line@),
        output matches Output::Json(result) ==> output@ == OutputView::Json(result@),
        output matches Output::Lang { layout, lang } ==> output@ == (OutputView::Lang {
            layout: layout@,
            lang: lang@,
        }),
        output is Copied ==> output@ is Copied,
        output is Version ==> output@ is Version,
        request is SearchPath ==> request@ is SearchPath,
        request matches Request::IsFile { path } ==> request@ == (RequestView::IsFile {
            path: path@,
        }),
        request matches Request::IsDir { path } ==> request@ == (RequestView::IsDir {
            path: path@,
        }),
        request is RuntimeDir ==> request@ is RuntimeDir,
        request is Stamp ==> request@ is Stamp,
        request matches Request::CreateDir { path, mode } ==> request@ == (RequestView::CreateDir {
            path: path@,
            mode,
        }),
        request matches Request::Discard { path, dir } ==> request@ == (RequestView::Discard {
            path: path@,
            dir: dir@,
        }),
        request matches Request::Run { program, args, null_stdin, capture } ==> request@ == (
        RequestView::Run { program: program@, args: texts(args@), null_stdin, capture }),
        request matches Request::Pipe { program, input } ==> request@ == (RequestView::Pipe {
            program: program@,
            input: input@,
        }),
        request is ReadInput ==> request@ is ReadInput,
        stop matches Stop::Fail(message) ==> stop@ == StopView::Fail(message@),
        stop matches Stop::Ask(asked) ==> stop@ == StopView::Ask(asked@),
        stop is Mismatch ==> stop@ is Mismatch,
{
}

/// An outcome agrees with what is wanted only if both are results or both are
/// stops, and hold the same.
pub proof fn law_agreement<T: View>(r: Result<T, Stop>, want: Result<T::V, StopView>)
    ensures
        agrees(r, want) <==> outcome(r) == want,
        r matches Ok(value) ==> outcome(r) == Ok::<T::V, StopView>(value@),
        r matches Err(stop) ==> outcome(r) == Err::<T::V, StopView>(stop@),
{
}

} // verus!
