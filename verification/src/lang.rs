//! Languages: which ones are installed, and which one to read a text in.

use vstd::prelude::*;
use vstd::string::*;
use vstd::utf8::{encode_utf8, is_ascii_chars};

use crate::host::{agrees, put_run, Log, Running, Session, Step, Stop, StopView};
use crate::text::{
    after, after_prefix, chars_of, contains, contains_text, lemma_until, lemma_until_bounds, lines,
    list1, list2, rest_after, same, stands_at, string_of, text_lines, texts, trim, trimmed, until,
};
use crate::tools::{not_run, not_run_message, which, which_spec};
use crate::unicode::{ascii_lowered, bytes_of, decode_lossy, lowercase, to_lowercase, utf8_lossy};

verus! {

/// A language code: a short word, of at most eight bytes, without spaces and quotes.
pub open spec fn is_lang_code(word: Seq<char>) -> bool {
    &&& word.len() > 0
    &&& encode_utf8(word).len() <= 8
    &&& !word.contains(' ')
    &&& !word.contains('"')
}

/// The language codes in a listing: the lines that hold a code and nothing else.
/// A heading has spaces in it, so it is no code.
pub open spec fn listed_langs(listing: Seq<char>) -> Seq<Seq<char>> {
    text_lines(listing).map_values(|line: Seq<char>| trimmed(line)).filter(
        |word: Seq<char>| is_lang_code(word),
    )
}

fn lang_code(word: &str) -> (r: bool)
    ensures
        r == is_lang_code(word@),
{
    !word.is_empty() && word.as_bytes().len() <= 8 && !contains(word, ' ') && !contains(word, '"')
}

/// The language codes in a listing.
pub fn parse_langs(listing: &str) -> (r: Vec<String>)
    ensures
        texts(r@) == listed_langs(listing@),
{
    let all: Vec<String> = lines(listing);
    let ghost keep = |word: Seq<char>| is_lang_code(word);
    let ghost words = text_lines(listing@).map_values(|line: Seq<char>| trimmed(line));
    let mut r: Vec<String> = Vec::new();
    let mut i: usize = 0;
    assert(words.take(0).filter(keep) =~= Seq::<Seq<char>>::empty()) by {
        reveal(Seq::filter);
    }
    assert(texts(r@) =~= Seq::<Seq<char>>::empty());
    while i < all.len()
        invariant
            i <= all@.len(),
            keep == (|word: Seq<char>| is_lang_code(word)),
            words == texts(all@).map_values(|line: Seq<char>| trimmed(line)),
            texts(r@) == words.take(i as int).filter(keep),
        decreases all@.len() - i,
    {
        let ghost before = texts(r@);
        let word: String = trim(all[i].as_str());
        proof {
            assert(words[i as int] == word@);
            assert(words.take(i + 1) =~= words.take(i as int).push(word@));
            words.take(i as int).lemma_filter_push(word@, keep);
        }
        if lang_code(word.as_str()) {
            r.push(word);
            assert(texts(r@) =~= before.push(word@));
        }
        i = i + 1;
    }
    assert(words.take(i as int) =~= words);
    r
}

/// Has the recognizer at `tesseract` list the languages.
pub open spec fn listing(tesseract: Seq<u8>, log: Log) -> Step<Seq<Seq<char>>> {
    match put_run(log, tesseract, seq!["--list-langs"@], false, true) {
        (next, Ok(Running::Exited { stdout, .. })) => (next, Ok(listed_langs(utf8_lossy(stdout@)))),
        (next, Ok(Running::Failed(reason))) => (
            next,
            Err(StopView::Fail(not_run("tesseract"@, reason@))),
        ),
        (next, Err(stop)) => (next, Err(stop)),
    }
}

/// Asks the recognizer which languages are installed.
pub open spec fn list_langs_spec(log: Log) -> Step<Seq<Seq<char>>> {
    match which_spec("tesseract"@, log) {
        (next, Ok(tesseract)) => listing(tesseract, next),
        (next, Err(stop)) => (next, Err(stop)),
    }
}

/// The languages that are installed.
pub fn list_langs(s: &mut Session) -> (r: Result<Vec<String>, Stop>)
    ensures
        final(s)@ == list_langs_spec(old(s)@).0,
        (match (r, list_langs_spec(old(s)@).1) {
            (Ok(langs), Ok(want)) => texts(langs@) == want,
            (Err(stop), Err(want)) => stop@ == want,
            _ => false,
        }),
{
    let tesseract: Vec<u8> = which("tesseract", s)?;
    match s.ask_run(tesseract, list1("--list-langs"), false, true)? {
        Running::Failed(reason) => Err(Stop::Fail(not_run_message("tesseract", reason.as_str()))),
        Running::Exited { stdout, .. } => Ok(
            parse_langs(decode_lossy(stdout.as_slice()).as_str()),
        ),
    }
}

/// The language code for a keyboard layout's base name.
pub open spec fn known_lang(base: Seq<char>) -> Seq<char> {
    if base == "br"@ || base == "pt"@ || base == "pt_br"@ || base == "pt-br"@ ||
        base == "brazil"@ || base == "portuguese"@ || base == "portugal"@ {
        "por"@
    } else if base == "es"@ || base == "spa"@ || base == "spanish"@ || base == "mexico"@ ||
        base == "latin"@ {
        "spa"@
    } else if base == "fr"@ || base == "french"@ {
        "fra"@
    } else if base == "de"@ || base == "german"@ {
        "deu"@
    } else if base == "it"@ || base == "italian"@ {
        "ita"@
    } else if base == "nl"@ || base == "dutch"@ {
        "nld"@
    } else if base == "ru"@ || base == "russian"@ {
        "rus"@
    } else if base == "ja"@ || base == "japanese"@ {
        "jpn"@
    } else if base == "zh"@ || base == "cn"@ || base == "chinese"@ {
        "chi_sim"@
    } else if base == "ko"@ || base == "korean"@ {
        "kor"@
    } else if base == "ar"@ || base == "arabic"@ {
        "ara"@
    } else if base == "hi"@ || base == "hindi"@ {
        "hin"@
    } else if base == "pl"@ || base == "polish"@ {
        "pol"@
    } else if base == "tr"@ || base == "turkish"@ {
        "tur"@
    } else if base == "sv"@ || base == "swedish"@ {
        "swe"@
    } else if base == "da"@ || base == "danish"@ {
        "dan"@
    } else if base == "no"@ || base == "norwegian"@ {
        "nor"@
    } else if base == "fi"@ || base == "finnish"@ {
        "fin"@
    } else if base == "cs"@ || base == "czech"@ {
        "ces"@
    } else if base == "hu"@ || base == "hungarian"@ {
        "hun"@
    } else if base == "ro"@ || base == "romanian"@ {
        "ron"@
    } else if base == "el"@ || base == "greek"@ {
        "ell"@
    } else if base == "he"@ || base == "hebrew"@ {
        "heb"@
    } else if base == "th"@ || base == "thai"@ {
        "tha"@
    } else if base == "vi"@ || base == "vietnamese"@ {
        "vie"@
    } else if base == "uk"@ || base == "ukrainian"@ {
        "ukr"@
    } else {
        "eng"@
    }
}

/// The part of a layout's name before the first parenthesis or space.
pub open spec fn base_of(name: Seq<char>) -> Seq<char> {
    name.take(
        if until(name, '(') <= until(name, ' ') {
            until(name, '(')
        } else {
            until(name, ' ')
        },
    )
}

/// The language code for a layout's name in lower case.
pub open spec fn lang_of_lowered(lowered: Seq<char>) -> Seq<char> {
    known_lang(base_of(trimmed(lowered)))
}

/// The language code for a keyboard layout in ASCII.
pub open spec fn lang_of_ascii(layout: Seq<char>) -> Seq<char> {
    lang_of_lowered(ascii_lowered(layout))
}

/// The language code for a keyboard layout.
pub open spec fn lang_of_layout(layout: Seq<char>) -> Seq<char> {
    lang_of_lowered(lowercase(layout))
}

/// The language code for a keyboard layout's base name.
pub fn base_to_lang(base: &str) -> (r: &'static str)
    ensures
        r@ == known_lang(base@),
{
    if same(base, "br") || same(base, "pt") || same(base, "pt_br") ||
        same(base, "pt-br") || same(base, "brazil") || same(base, "portuguese") ||
        same(base, "portugal") {
        "por"
    } else if same(base, "es") || same(base, "spa") || same(base, "spanish") ||
        same(base, "mexico") || same(base, "latin") {
        "spa"
    } else if same(base, "fr") || same(base, "french") {
        "fra"
    } else if same(base, "de") || same(base, "german") {
        "deu"
    } else if same(base, "it") || same(base, "italian") {
        "ita"
    } else if same(base, "nl") || same(base, "dutch") {
        "nld"
    } else if same(base, "ru") || same(base, "russian") {
        "rus"
    } else if same(base, "ja") || same(base, "japanese") {
        "jpn"
    } else if same(base, "zh") || same(base, "cn") || same(base, "chinese") {
        "chi_sim"
    } else if same(base, "ko") || same(base, "korean") {
        "kor"
    } else if same(base, "ar") || same(base, "arabic") {
        "ara"
    } else if same(base, "hi") || same(base, "hindi") {
        "hin"
    } else if same(base, "pl") || same(base, "polish") {
        "pol"
    } else if same(base, "tr") || same(base, "turkish") {
        "tur"
    } else if same(base, "sv") || same(base, "swedish") {
        "swe"
    } else if same(base, "da") || same(base, "danish") {
        "dan"
    } else if same(base, "no") || same(base, "norwegian") {
        "nor"
    } else if same(base, "fi") || same(base, "finnish") {
        "fin"
    } else if same(base, "cs") || same(base, "czech") {
        "ces"
    } else if same(base, "hu") || same(base, "hungarian") {
        "hun"
    } else if same(base, "ro") || same(base, "romanian") {
        "ron"
    } else if same(base, "el") || same(base, "greek") {
        "ell"
    } else if same(base, "he") || same(base, "hebrew") {
        "heb"
    } else if same(base, "th") || same(base, "thai") {
        "tha"
    } else if same(base, "vi") || same(base, "vietnamese") {
        "vie"
    } else if same(base, "uk") || same(base, "ukrainian") {
        "ukr"
    } else {
        "eng"
    }
}

/// The part of a layout's name before the first parenthesis or space.
pub fn layout_base(name: &str) -> (r: String)
    ensures
        r@ == base_of(name@),
{
    let v: Vec<char> = chars_of(name);
    let mut i: usize = 0;
    while i < v.len() && v[i] != '(' && v[i] != ' '
        invariant
            i <= v@.len(),
            v@ == name@,
            forall|j: int| 0 <= j < i ==> v@[j] != '(' && v@[j] != ' ',
        decreases v@.len() - i,
    {
        i = i + 1;
    }
    proof {
        lemma_until_bounds(name@, '(');
        lemma_until_bounds(name@, ' ');
        if i == v@.len() || v@[i as int] == '(' {
            lemma_until(name@, '(', i as int);
        }
        if i == v@.len() || v@[i as int] == ' ' {
            lemma_until(name@, ' ', i as int);
        }
        assert(name@.take(i as int) =~= v@.subrange(0, i as int));
    }
    string_of(vstd::slice::slice_subrange(v.as_slice(), 0, i))
}

/// The language code for a layout's name in lower case.
pub fn lowered_to_lang(lowered: &str) -> (r: &'static str)
    ensures
        r@ == lang_of_lowered(lowered@),
{
    base_to_lang(layout_base(trim(lowered).as_str()).as_str())
}

/// Maps a keyboard layout or locale to the closest language code. A layout is
/// not the language of the text on screen, so this is a guess, with English
/// where nothing better is known.
pub fn layout_to_lang(layout: &str) -> (r: &'static str)
    ensures
        r@ == lang_of_layout(layout@),
        is_ascii_chars(layout@) ==> r@ == lang_of_ascii(layout@),
{
    lowered_to_lang(to_lowercase(layout).as_str())
}

/// The layout that a line `str: ...` names.
pub open spec fn line_layout(line: Seq<char>) -> Option<Seq<char>> {
    let word = trimmed(line);
    let value = trimmed(word.skip("str:"@.len() as int));
    if stands_at(word, "str:"@, 0) && value.len() > 0 {
        Some(value)
    } else {
        None
    }
}

/// The layout of the first line that names one.
pub open spec fn first_layout(list: Seq<Seq<char>>) -> Option<Seq<char>>
    decreases list.len(),
{
    if list.len() == 0 {
        None
    } else if line_layout(list[0]) is Some {
        line_layout(list[0])
    } else {
        first_layout(list.skip(1))
    }
}

/// The layout that Hyprland reports.
pub open spec fn hyprland_layout(report: Seq<char>) -> Option<Seq<char>> {
    first_layout(text_lines(report))
}

/// The layout that fcitx5 reports: what follows `keyboard-` in the input method's name.
pub open spec fn fcitx_layout(report: Seq<char>) -> Option<Seq<char>> {
    match rest_after(trimmed(report), "keyboard-"@) {
        Some(layout) => if layout.len() > 0 {
            Some(layout)
        } else {
            None
        },
        None => None,
    }
}

/// Whether an executable text is the specified one, where there is one.
pub open spec fn same_option(r: Option<String>, want: Option<Seq<char>>) -> bool {
    match (r, want) {
        (Some(a), Some(b)) => a@ == b,
        (None, None) => true,
        _ => false,
    }
}

/// The layout that Hyprland reports.
pub fn parse_hyprland(report: &str) -> (r: Option<String>)
    ensures
        same_option(r, hyprland_layout(report@)),
{
    let all: Vec<String> = lines(report);
    let ghost list = text_lines(report@);
    let mut i: usize = 0;
    assert(list.skip(0) =~= list);
    while i < all.len()
        invariant
            i <= all@.len(),
            list == texts(all@),
            list == text_lines(report@),
            first_layout(list) == first_layout(list.skip(i as int)),
        decreases all@.len() - i,
    {
        let word: String = trim(all[i].as_str());
        assert(list[i as int] == all@[i as int]@);
        assert(list.skip(i as int).skip(1) =~= list.skip(i + 1));
        if let Some(tail) = after_prefix(word.as_str(), "str:") {
            let value: String = trim(tail.as_str());
            if !value.as_str().is_empty() {
                return Some(value);
            }
        }
        i = i + 1;
    }
    None
}

/// The layout that fcitx5 reports.
pub fn parse_fcitx(report: &str) -> (r: Option<String>)
    ensures
        same_option(r, fcitx_layout(report@)),
{
    match after(trim(report).as_str(), "keyboard-") {
        Some(layout) => if layout.as_str().is_empty() {
            None
        } else {
            Some(layout)
        },
        None => None,
    }
}

/// What a program printed, if it ran and ended with success.
pub open spec fn printed(running: Running) -> Option<Seq<char>> {
    match running {
        Running::Exited { success: true, stdout, .. } => Some(utf8_lossy(stdout@)),
        _ => None,
    }
}

fn output_of(running: &Running) -> (r: Option<String>)
    ensures
        same_option(r, printed(*running)),
{
    match running {
        Running::Exited { success, stdout, .. } => if *success {
            Some(decode_lossy(stdout.as_slice()))
        } else {
            None
        },
        Running::Failed(_) => None,
    }
}

/// Asks fcitx5 for the layout; without an answer it is `us`.
pub open spec fn fcitx_spec(log: Log) -> Step<Seq<char>> {
    match put_run(log, encode_utf8("fcitx5-remote"@), seq!["-n"@], false, true) {
        (next, Ok(running)) => (
            next,
            Ok(
                match printed(running) {
                    Some(report) => match fcitx_layout(report) {
                        Some(layout) => layout,
                        None => "us"@,
                    },
                    None => "us"@,
                },
            ),
        ),
        (next, Err(stop)) => (next, Err(stop)),
    }
}

/// The layout that Hyprland reported, or what fcitx5 says if it did not.
pub open spec fn layout_from(running: Running, log: Log) -> Step<Seq<char>> {
    match printed(running) {
        Some(report) => match hyprland_layout(report) {
            Some(layout) => (log, Ok(layout)),
            None => fcitx_spec(log),
        },
        None => fcitx_spec(log),
    }
}

/// Asks Hyprland for the layout, and fcitx5 if there is no answer.
pub open spec fn detect_layout_spec(log: Log) -> Step<Seq<char>> {
    match put_run(
        log,
        encode_utf8("hyprctl"@),
        seq!["getoption"@, "input:kb_layout"@],
        false,
        true,
    ) {
        (next, Ok(running)) => layout_from(running, next),
        (next, Err(stop)) => (next, Err(stop)),
    }
}

/// Detects the active keyboard layout: what Hyprland says, else what fcitx5
/// says, else `us`.
pub fn detect_layout(s: &mut Session) -> (r: Result<String, Stop>)
    ensures
        final(s)@ == detect_layout_spec(old(s)@).0,
        agrees(r, detect_layout_spec(old(s)@).1),
{
    let hyprland = s.ask_run(
        bytes_of("hyprctl"),
        list2("getoption", "input:kb_layout"),
        false,
        true,
    )?;
    if let Some(report) = output_of(hyprland) {
        if let Some(layout) = parse_hyprland(report.as_str()) {
            return Ok(layout);
        }
    }
    let fcitx = s.ask_run(bytes_of("fcitx5-remote"), list1("-n"), false, true)?;
    if let Some(report) = output_of(fcitx) {
        if let Some(layout) = parse_fcitx(report.as_str()) {
            return Ok(layout);
        }
    }
    Ok("us".to_owned())
}

/// The message for a machine without a language.
pub open spec fn no_lang() -> Seq<char> {
    "no usable tesseract language installed (need at least 'eng')"@
}

/// The language to read in, where the requested one is not to be had: the one
/// that was detected if it is installed, else English if it is, else the first
/// that is.
pub open spec fn fallback_lang(langs: Seq<Seq<char>>, detected: Seq<char>) -> Result<
    Seq<char>,
    StopView,
> {
    if langs.contains(detected) {
        Ok(detected)
    } else if langs.contains("eng"@) {
        Ok("eng"@)
    } else if langs.len() > 0 {
        Ok(langs[0])
    } else {
        Err(StopView::Fail(no_lang()))
    }
}

/// The language to read in, where the requested one is not to be had.
pub fn pick_lang(langs: &Vec<String>, detected: &str) -> (r: Result<String, Stop>)
    ensures
        agrees(r, fallback_lang(texts(langs@), detected@)),
{
    if contains_text(langs, detected) {
        Ok(detected.to_owned())
    } else if contains_text(langs, "eng") {
        Ok("eng".to_owned())
    } else if langs.len() > 0 {
        Ok(langs[0].clone())
    } else {
        Err(Stop::Fail("no usable tesseract language installed (need at least 'eng')".to_owned()))
    }
}

/// The requested language if it is one of `langs`, else the fallback.
pub open spec fn settled(requested: Seq<char>, langs: Seq<Seq<char>>, log: Log) -> Step<Seq<char>> {
    if requested.len() > 0 && langs.contains(requested) {
        (log, Ok(requested))
    } else {
        match detect_layout_spec(log) {
            (next, Ok(layout)) => (next, fallback_lang(langs, lang_of_layout(layout))),
            (next, Err(stop)) => (next, Err(stop)),
        }
    }
}

/// Settles the language: the requested one if it is installed, else the fallback.
pub open spec fn resolve_lang_spec(requested: Seq<char>, log: Log) -> Step<Seq<char>> {
    match list_langs_spec(log) {
        (next, Ok(langs)) => settled(requested, langs, next),
        (next, Err(stop)) => (next, Err(stop)),
    }
}

/// Settles the language to read in: the requested one if it is installed,
/// otherwise the one of the active keyboard layout, otherwise whatever is
/// installed, English before others.
pub fn resolve_lang(requested: &str, s: &mut Session) -> (r: Result<String, Stop>)
    ensures
        final(s)@ == resolve_lang_spec(requested@, old(s)@).0,
        agrees(r, resolve_lang_spec(requested@, old(s)@).1),
{
    let langs: Vec<String> = list_langs(s)?;
    if !requested.is_empty() && contains_text(&langs, requested) {
        return Ok(requested.to_owned());
    }
    let layout: String = detect_layout(s)?;
    pick_lang(&langs, layout_to_lang(layout.as_str()))
}

/// Settles the language, and reports it with the layout.
pub open spec fn with_layout(layout: Seq<char>, log: Log) -> Step<(Seq<char>, Seq<char>)> {
    match resolve_lang_spec(Seq::empty(), log) {
        (next, Ok(lang)) => (next, Ok((layout, lang))),
        (next, Err(stop)) => (next, Err(stop)),
    }
}

/// Reports the layout and the language that goes with it.
pub open spec fn detect_lang_spec(log: Log) -> Step<(Seq<char>, Seq<char>)> {
    match detect_layout_spec(log) {
        (next, Ok(layout)) => with_layout(layout, next),
        (next, Err(stop)) => (next, Err(stop)),
    }
}

/// Reports the detected layout and the language that will be used.
pub fn detect_lang(s: &mut Session) -> (r: Result<(String, String), Stop>)
    ensures
        final(s)@ == detect_lang_spec(old(s)@).0,
        agrees(r, detect_lang_spec(old(s)@).1),
{
    let layout: String = detect_layout(s)?;
    proof {
        reveal_strlit("");
        assert(""@ =~= Seq::<char>::empty());
    }
    let lang: String = resolve_lang("", s)?;
    Ok((layout, lang))
}

} // verus!
