//! What a reading is asked to do, and the command line that says so.

use vstd::prelude::*;
use vstd::string::*;

use crate::host::{Stop, StopView};
use crate::text::{join2, same, texts};

verus! {

/// What a reading is asked to do.
#[derive(Debug)]
pub struct OcrOptions {
    /// Let the user select a region rather than take the whole screen.
    pub region: bool,
    /// Read this image file rather than the screen.
    pub file: Option<String>,
    /// The language to read in; empty if it is to be detected.
    pub lang: String,
    /// Put the text on the clipboard.
    pub copy: bool,
    /// Print the result as JSON.
    pub json: bool,
}

/// The contents of [`OcrOptions`].
pub struct OptionsView {
    pub region: bool,
    pub file: Option<Seq<char>>,
    pub lang: Seq<char>,
    pub copy: bool,
    pub json: bool,
}

impl View for OcrOptions {
    type V = OptionsView;

    open spec fn view(&self) -> OptionsView {
        OptionsView {
            region: self.region,
            file: match self.file {
                Some(path) => Some(path@),
                None => None,
            },
            lang: self.lang@,
            copy: self.copy,
            json: self.json,
        }
    }
}

/// What a reading does unless it is asked otherwise: it lets the user select a
/// region, detects the language, and puts the text on the clipboard.
pub open spec fn default_options() -> OptionsView {
    OptionsView { region: true, file: None, lang: Seq::empty(), copy: true, json: false }
}

impl Default for OcrOptions {
    fn default() -> (r: OcrOptions)
        ensures
            r@ == default_options(),
    {
        OcrOptions { region: true, file: None, lang: String::new(), copy: true, json: false }
    }
}

impl Clone for OcrOptions {
    fn clone(&self) -> (r: OcrOptions)
        ensures
            r@ == self@,
    {
        let file: Option<String> = match &self.file {
            Some(path) => Some(path.clone()),
            None => None,
        };
        OcrOptions {
            region: self.region,
            file,
            lang: self.lang.clone(),
            copy: self.copy,
            json: self.json,
        }
    }
}

/// The message for a flag without its value.
pub open spec fn needs_value(flag: Seq<char>) -> Seq<char> {
    flag + " needs a value"@
}

/// The value after the flag at `i`, which moves on to it.
pub fn take_value(raw: &[String], i: &mut usize, flag: &str) -> (r: Result<String, Stop>)
    requires
        *old(i) < usize::MAX,
    ensures
        *final(i) == *old(i) + 1,
        (match r {
            Ok(value) => *final(i) < raw@.len() && value@ == raw@[*final(i) as int]@,
            Err(stop) => *final(i) >= raw@.len() && stop@ == StopView::Fail(needs_value(flag@)),
        }),
{
    *i = *i + 1;
    if *i < raw.len() {
        Ok(raw[*i].clone())
    } else {
        Err(Stop::Fail(join2(flag, " needs a value")))
    }
}

/// The options of a command line, and the words that are no options.
pub struct Parsed {
    pub opts: OptionsView,
    pub positional: Seq<Seq<char>>,
}

/// Reads the command line `raw` from word `i` on, on top of what was read before.
pub open spec fn parsed_from(raw: Seq<Seq<char>>, i: int, so_far: Parsed) -> Result<
    Parsed,
    StopView,
>
    decreases raw.len() - i,
{
    let opts = so_far.opts;
    if i < 0 || i >= raw.len() {
        Ok(so_far)
    } else if raw[i] == "--lang"@ {
        if i + 1 < raw.len() {
            parsed_from(
                raw,
                i + 2,
                Parsed { opts: OptionsView { lang: raw[i + 1], ..opts }, ..so_far },
            )
        } else {
            Err(StopView::Fail(needs_value("--lang"@)))
        }
    } else if raw[i] == "--copy"@ {
        parsed_from(raw, i + 1, Parsed { opts: OptionsView { copy: true, ..opts }, ..so_far })
    } else if raw[i] == "--json"@ {
        parsed_from(raw, i + 1, Parsed { opts: OptionsView { json: true, ..opts }, ..so_far })
    } else {
        parsed_from(raw, i + 1, Parsed { positional: so_far.positional.push(raw[i]), ..so_far })
    }
}

/// Reads a command line.
pub open spec fn parsed(raw: Seq<Seq<char>>) -> Result<Parsed, StopView> {
    parsed_from(raw, 0, Parsed { opts: default_options(), positional: Seq::empty() })
}

/// The options of a command line, and the words that are no options.
pub fn parse_common(raw: &[String]) -> (r: Result<(OcrOptions, Vec<String>), Stop>)
    ensures
        (match (r, parsed(texts(raw@))) {
            (Ok((opts, positional)), Ok(want)) => opts@ == want.opts && texts(positional@)
                == want.positional,
            (Err(stop), Err(want)) => stop@ == want,
            _ => false,
        }),
{
    let mut opts: OcrOptions = OcrOptions::default();
    let mut positional: Vec<String> = Vec::new();
    let mut i: usize = 0;
    let ghost words = texts(raw@);
    assert(texts(positional@) =~= Seq::<Seq<char>>::empty());
    while i < raw.len()
        invariant
            i <= raw@.len(),
            raw@.len() == raw.len(),
            words == texts(raw@),
            parsed(words) == parsed_from(
                words,
                i as int,
                (Parsed { opts: opts@, positional: texts(positional@) }),
            ),
        decreases raw@.len() - i,
    {
        let word: &str = raw[i].as_str();
        let ghost before = texts(positional@);
        assert(word@ == words[i as int]);
        if same(word, "--lang") {
            opts.lang = take_value(raw, &mut i, "--lang")?;
        } else if same(word, "--copy") {
            opts.copy = true;
        } else if same(word, "--json") {
            opts.json = true;
        } else {
            positional.push(word.to_owned());
            assert(texts(positional@) =~= before.push(word@));
        }
        i = i + 1;
    }
    Ok((opts, positional))
}

} // verus!
