//! What holds of the languages: the list of those that are installed, the layout
//! that is active, and the choice between them.

use vstd::prelude::*;
use vstd::utf8::encode_utf8;

use crate::host::{Log, Running, StopView};
use crate::lang::{
    base_of, detect_lang_spec, detect_layout_spec, fallback_lang, fcitx_layout, first_layout,
    hyprland_layout, known_lang, lang_of_ascii, lang_of_layout, lang_of_lowered, list_langs_spec,
    listed_langs, resolve_lang_spec,
};
use crate::laws::{lemma_trim_end_keeps, lemma_trim_start_keeps};
use crate::text::{lemma_until, lemma_until_bounds, rest_after, text_lines, trimmed, until};
use crate::text_laws::{
    bare, blank, is_first, law_first_line, law_one_line, law_rest_after, law_trim, splits,
};
use crate::tool_laws::{
    end_of, grows, law_search, lemma_grows_on, lemma_picked_grows, missed, picked, ran, said,
};
use crate::tools::which_spec;
use crate::unicode::{ascii_lowered, lowercase, utf8_lossy};

verus! {

/// Whether a word has neither space nor parenthesis in it, nor white space around it.
pub open spec fn plain_word(word: Seq<char>) -> bool {
    bare(word) && !word.contains(' ') && !word.contains('(')
}

proof fn lemma_plain_word(word: Seq<char>)
    requires
        plain_word(word),
    ensures
        lang_of_lowered(word) == known_lang(word),
{
    lemma_trim_start_keeps(word);
    lemma_trim_end_keeps(word);
    lemma_until(word, '(', word.len() as int);
    lemma_until(word, ' ', word.len() as int);
    assert(word.take(word.len() as int) =~= word);
}

/// Whether `code` is the language code for the layout `name`, as a base name, as a
/// name in lower case and as a layout in ASCII.
pub open spec fn codes_for(name: Seq<char>, code: Seq<char>) -> bool {
    &&& known_lang(name) == code
    &&& lang_of_lowered(name) == code
    &&& lang_of_ascii(name) == code
}

/// Each of these names of a layout has its language, and every other name has
/// English.
pub proof fn law_layout_names(name: Seq<char>)
    ensures
        name == "br"@ || name == "pt"@ || name == "pt_br"@ || name == "pt-br"@ ||
            name == "brazil"@ || name == "portuguese"@ || name == "portugal"@
            ==> codes_for(name, "por"@),
        name == "es"@ || name == "spa"@ || name == "spanish"@ || name == "mexico"@ ||
            name == "latin"@
            ==> codes_for(name, "spa"@),
        name == "fr"@ || name == "french"@
            ==> codes_for(name, "fra"@),
        name == "de"@ || name == "german"@
            ==> codes_for(name, "deu"@),
        name == "it"@ || name == "italian"@
            ==> codes_for(name, "ita"@),
        name == "nl"@ || name == "dutch"@
            ==> codes_for(name, "nld"@),
        name == "ru"@ || name == "russian"@
            ==> codes_for(name, "rus"@),
        name == "ja"@ || name == "japanese"@
            ==> codes_for(name, "jpn"@),
        name == "zh"@ || name == "cn"@ || name == "chinese"@
            ==> codes_for(name, "chi_sim"@),
        name == "ko"@ || name == "korean"@
            ==> codes_for(name, "kor"@),
        name == "ar"@ || name == "arabic"@
            ==> codes_for(name, "ara"@),
        name == "hi"@ || name == "hindi"@
            ==> codes_for(name, "hin"@),
        name == "pl"@ || name == "polish"@
            ==> codes_for(name, "pol"@),
        name == "tr"@ || name == "turkish"@
            ==> codes_for(name, "tur"@),
        name == "sv"@ || name == "swedish"@
            ==> codes_for(name, "swe"@),
        name == "da"@ || name == "danish"@
            ==> codes_for(name, "dan"@),
        name == "no"@ || name == "norwegian"@
            ==> codes_for(name, "nor"@),
        name == "fi"@ || name == "finnish"@
            ==> codes_for(name, "fin"@),
        name == "cs"@ || name == "czech"@
            ==> codes_for(name, "ces"@),
        name == "hu"@ || name == "hungarian"@
            ==> codes_for(name, "hun"@),
        name == "ro"@ || name == "romanian"@
            ==> codes_for(name, "ron"@),
        name == "el"@ || name == "greek"@
            ==> codes_for(name, "ell"@),
        name == "he"@ || name == "hebrew"@
            ==> codes_for(name, "heb"@),
        name == "th"@ || name == "thai"@
            ==> codes_for(name, "tha"@),
        name == "vi"@ || name == "vietnamese"@
            ==> codes_for(name, "vie"@),
        name == "uk"@ || name == "ukrainian"@
            ==> codes_for(name, "ukr"@),
        !(name == "br"@ || name == "pt"@ || name == "pt_br"@ || name == "pt-br"@ ||
                name == "brazil"@ || name == "portuguese"@ || name == "portugal"@ ||
                name == "es"@ || name == "spa"@ || name == "spanish"@ ||
                name == "mexico"@ || name == "latin"@ || name == "fr"@ ||
                name == "french"@ || name == "de"@ || name == "german"@ || name == "it"@ ||
                name == "italian"@ || name == "nl"@ || name == "dutch"@ || name == "ru"@ ||
                name == "russian"@ || name == "ja"@ || name == "japanese"@ ||
                name == "zh"@ || name == "cn"@ || name == "chinese"@ || name == "ko"@ ||
                name == "korean"@ || name == "ar"@ || name == "arabic"@ || name == "hi"@ ||
                name == "hindi"@ || name == "pl"@ || name == "polish"@ || name == "tr"@ ||
                name == "turkish"@ || name == "sv"@ || name == "swedish"@ ||
                name == "da"@ || name == "danish"@ || name == "no"@ ||
                name == "norwegian"@ || name == "fi"@ || name == "finnish"@ ||
                name == "cs"@ || name == "czech"@ || name == "hu"@ ||
                name == "hungarian"@ || name == "ro"@ || name == "romanian"@ ||
                name == "el"@ || name == "greek"@ || name == "he"@ || name == "hebrew"@ ||
                name == "th"@ || name == "thai"@ || name == "vi"@ ||
                name == "vietnamese"@ || name == "uk"@ || name == "ukrainian"@)
            ==> known_lang(name) == "eng"@ && (plain_word(name) ==> lang_of_lowered(name)
            == "eng"@),
{
    reveal_strlit("br");
    reveal_strlit("pt");
    reveal_strlit("pt_br");
    reveal_strlit("pt-br");
    reveal_strlit("brazil");
    reveal_strlit("portuguese");
    reveal_strlit("portugal");
    reveal_strlit("es");
    reveal_strlit("spa");
    reveal_strlit("spanish");
    reveal_strlit("mexico");
    reveal_strlit("latin");
    reveal_strlit("fr");
    reveal_strlit("french");
    reveal_strlit("de");
    reveal_strlit("german");
    reveal_strlit("it");
    reveal_strlit("italian");
    reveal_strlit("nl");
    reveal_strlit("dutch");
    reveal_strlit("ru");
    reveal_strlit("russian");
    reveal_strlit("ja");
    reveal_strlit("japanese");
    reveal_strlit("zh");
    reveal_strlit("cn");
    reveal_strlit("chinese");
    reveal_strlit("ko");
    reveal_strlit("korean");
    reveal_strlit("ar");
    reveal_strlit("arabic");
    reveal_strlit("hi");
    reveal_strlit("hindi");
    reveal_strlit("pl");
    reveal_strlit("polish");
    reveal_strlit("tr");
    reveal_strlit("turkish");
    reveal_strlit("sv");
    reveal_strlit("swedish");
    reveal_strlit("da");
    reveal_strlit("danish");
    reveal_strlit("no");
    reveal_strlit("norwegian");
    reveal_strlit("fi");
    reveal_strlit("finnish");
    reveal_strlit("cs");
    reveal_strlit("czech");
    reveal_strlit("hu");
    reveal_strlit("hungarian");
    reveal_strlit("ro");
    reveal_strlit("romanian");
    reveal_strlit("el");
    reveal_strlit("greek");
    reveal_strlit("he");
    reveal_strlit("hebrew");
    reveal_strlit("th");
    reveal_strlit("thai");
    reveal_strlit("vi");
    reveal_strlit("vietnamese");
    reveal_strlit("uk");
    reveal_strlit("ukrainian");
    if plain_word(name) {
        lemma_plain_word(name);
    }
    if name == "br"@ {
        lemma_plain_word(name);
        assert(name[0] == 'b' && name[1] == 'r');
        assert(known_lang(name) == "por"@);
        assert(ascii_lowered(name) =~= name);
    }
    if name == "pt"@ {
        lemma_plain_word(name);
        assert(name[0] == 'p' && name[1] == 't');
        assert(known_lang(name) == "por"@);
        assert(ascii_lowered(name) =~= name);
    }
    if name == "pt_br"@ {
        lemma_plain_word(name);
        assert(name[0] == 'p' && name[1] == 't');
        assert(known_lang(name) == "por"@);
        assert(ascii_lowered(name) =~= name);
    }
    if name == "pt-br"@ {
        lemma_plain_word(name);
        assert(name[0] == 'p' && name[1] == 't');
        assert(known_lang(name) == "por"@);
        assert(ascii_lowered(name) =~= name);
    }
    if name == "brazil"@ {
        lemma_plain_word(name);
        assert(name[0] == 'b' && name[1] == 'r');
        assert(known_lang(name) == "por"@);
        assert(ascii_lowered(name) =~= name);
    }
    if name == "portuguese"@ {
        lemma_plain_word(name);
        assert(name[0] == 'p' && name[1] == 'o');
        assert(known_lang(name) == "por"@);
        assert(ascii_lowered(name) =~= name);
    }
    if name == "portugal"@ {
        lemma_plain_word(name);
        assert(name[0] == 'p' && name[1] == 'o');
        assert(known_lang(name) == "por"@);
        assert(ascii_lowered(name) =~= name);
    }
    if name == "es"@ {
        lemma_plain_word(name);
        assert(name[0] == 'e' && name[1] == 's');
        assert(known_lang(name) == "spa"@);
        assert(ascii_lowered(name) =~= name);
    }
    if name == "spa"@ {
        lemma_plain_word(name);
        assert(name[0] == 's' && name[1] == 'p');
        assert(known_lang(name) == "spa"@);
        assert(ascii_lowered(name) =~= name);
    }
    if name == "spanish"@ {
        lemma_plain_word(name);
        assert(name[0] == 's' && name[1] == 'p');
        assert(known_lang(name) == "spa"@);
        assert(ascii_lowered(name) =~= name);
    }
    if name == "mexico"@ {
        lemma_plain_word(name);
        assert(name[0] == 'm' && name[1] == 'e');
        assert(known_lang(name) == "spa"@);
        assert(ascii_lowered(name) =~= name);
    }
    if name == "latin"@ {
        lemma_plain_word(name);
        assert(name[0] == 'l' && name[1] == 'a');
        assert(known_lang(name) == "spa"@);
        assert(ascii_lowered(name) =~= name);
    }
    if name == "fr"@ {
        lemma_plain_word(name);
        assert(name[0] == 'f' && name[1] == 'r');
        assert(known_lang(name) == "fra"@);
        assert(ascii_lowered(name) =~= name);
    }
    if name == "french"@ {
        lemma_plain_word(name);
        assert(name[0] == 'f' && name[1] == 'r');
        assert(known_lang(name) == "fra"@);
        assert(ascii_lowered(name) =~= name);
    }
    if name == "de"@ {
        lemma_plain_word(name);
        assert(name[0] == 'd' && name[1] == 'e');
        assert(known_lang(name) == "deu"@);
        assert(ascii_lowered(name) =~= name);
    }
    if name == "german"@ {
        lemma_plain_word(name);
        assert(name[0] == 'g' && name[1] == 'e');
        assert(known_lang(name) == "deu"@);
        assert(ascii_lowered(name) =~= name);
    }
    if name == "it"@ {
        lemma_plain_word(name);
        assert(name[0] == 'i' && name[1] == 't');
        assert(known_lang(name) == "ita"@);
        assert(ascii_lowered(name) =~= name);
    }
    if name == "italian"@ {
        lemma_plain_word(name);
        assert(name[0] == 'i' && name[1] == 't');
        assert(known_lang(name) == "ita"@);
        assert(ascii_lowered(name) =~= name);
    }
    if name == "nl"@ {
        lemma_plain_word(name);
        assert(name[0] == 'n' && name[1] == 'l');
        assert(known_lang(name) == "nld"@);
        assert(ascii_lowered(name) =~= name);
    }
    if name == "dutch"@ {
        lemma_plain_word(name);
        assert(name[0] == 'd' && name[1] == 'u');
        assert(known_lang(name) == "nld"@);
        assert(ascii_lowered(name) =~= name);
    }
    if name == "ru"@ {
        lemma_plain_word(name);
        assert(name[0] == 'r' && name[1] == 'u');
        assert(known_lang(name) == "rus"@);
        assert(ascii_lowered(name) =~= name);
    }
    if name == "russian"@ {
        lemma_plain_word(name);
        assert(name[0] == 'r' && name[1] == 'u');
        assert(known_lang(name) == "rus"@);
        assert(ascii_lowered(name) =~= name);
    }
    if name == "ja"@ {
        lemma_plain_word(name);
        assert(name[0] == 'j' && name[1] == 'a');
        assert(known_lang(name) == "jpn"@);
        assert(ascii_lowered(name) =~= name);
    }
    if name == "japanese"@ {
        lemma_plain_word(name);
        assert(name[0] == 'j' && name[1] == 'a');
        assert(known_lang(name) == "jpn"@);
        assert(ascii_lowered(name) =~= name);
    }
    if name == "zh"@ {
        lemma_plain_word(name);
        assert(name[0] == 'z' && name[1] == 'h');
        assert(known_lang(name) == "chi_sim"@);
        assert(ascii_lowered(name) =~= name);
    }
    if name == "cn"@ {
        lemma_plain_word(name);
        assert(name[0] == 'c' && name[1] == 'n');
        assert(known_lang(name) == "chi_sim"@);
        assert(ascii_lowered(name) =~= name);
    }
    if name == "chinese"@ {
        lemma_plain_word(name);
        assert(name[0] == 'c' && name[1] == 'h');
        assert(known_lang(name) == "chi_sim"@);
        assert(ascii_lowered(name) =~= name);
    }
    if name == "ko"@ {
        lemma_plain_word(name);
        assert(name[0] == 'k' && name[1] == 'o');
        assert(known_lang(name) == "kor"@);
        assert(ascii_lowered(name) =~= name);
    }
    if name == "korean"@ {
        lemma_plain_word(name);
        assert(name[0] == 'k' && name[1] == 'o');
        assert(known_lang(name) == "kor"@);
        assert(ascii_lowered(name) =~= name);
    }
    if name == "ar"@ {
        lemma_plain_word(name);
        assert(name[0] == 'a' && name[1] == 'r');
        assert(known_lang(name) == "ara"@);
        assert(ascii_lowered(name) =~= name);
    }
    if name == "arabic"@ {
        lemma_plain_word(name);
        assert(name[0] == 'a' && name[1] == 'r');
        assert(known_lang(name) == "ara"@);
        assert(ascii_lowered(name) =~= name);
    }
    if name == "hi"@ {
        lemma_plain_word(name);
        assert(name[0] == 'h' && name[1] == 'i');
        assert(known_lang(name) == "hin"@);
        assert(ascii_lowered(name) =~= name);
    }
    if name == "hindi"@ {
        lemma_plain_word(name);
        assert(name[0] == 'h' && name[1] == 'i');
        assert(known_lang(name) == "hin"@);
        assert(ascii_lowered(name) =~= name);
    }
    if name == "pl"@ {
        lemma_plain_word(name);
        assert(name[0] == 'p' && name[1] == 'l');
        assert(known_lang(name) == "pol"@);
        assert(ascii_lowered(name) =~= name);
    }
    if name == "polish"@ {
        lemma_plain_word(name);
        assert(name[0] == 'p' && name[1] == 'o');
        assert(known_lang(name) == "pol"@);
        assert(ascii_lowered(name) =~= name);
    }
    if name == "tr"@ {
        lemma_plain_word(name);
        assert(name[0] == 't' && name[1] == 'r');
        assert(known_lang(name) == "tur"@);
        assert(ascii_lowered(name) =~= name);
    }
    if name == "turkish"@ {
        lemma_plain_word(name);
        assert(name[0] == 't' && name[1] == 'u');
        assert(known_lang(name) == "tur"@);
        assert(ascii_lowered(name) =~= name);
    }
    if name == "sv"@ {
        lemma_plain_word(name);
        assert(name[0] == 's' && name[1] == 'v');
        assert(known_lang(name) == "swe"@);
        assert(ascii_lowered(name) =~= name);
    }
    if name == "swedish"@ {
        lemma_plain_word(name);
        assert(name[0] == 's' && name[1] == 'w');
        assert(known_lang(name) == "swe"@);
        assert(ascii_lowered(name) =~= name);
    }
    if name == "da"@ {
        lemma_plain_word(name);
        assert(name[0] == 'd' && name[1] == 'a');
        assert(known_lang(name) == "dan"@);
        assert(ascii_lowered(name) =~= name);
    }
    if name == "danish"@ {
        lemma_plain_word(name);
        assert(name[0] == 'd' && name[1] == 'a');
        assert(known_lang(name) == "dan"@);
        assert(ascii_lowered(name) =~= name);
    }
    if name == "no"@ {
        lemma_plain_word(name);
        assert(name[0] == 'n' && name[1] == 'o');
        assert(known_lang(name) == "nor"@);
        assert(ascii_lowered(name) =~= name);
    }
    if name == "norwegian"@ {
        lemma_plain_word(name);
        assert(name[0] == 'n' && name[1] == 'o');
        assert(known_lang(name) == "nor"@);
        assert(ascii_lowered(name) =~= name);
    }
    if name == "fi"@ {
        lemma_plain_word(name);
        assert(name[0] == 'f' && name[1] == 'i');
        assert(known_lang(name) == "fin"@);
        assert(ascii_lowered(name) =~= name);
    }
    if name == "finnish"@ {
        lemma_plain_word(name);
        assert(name[0] == 'f' && name[1] == 'i');
        assert(known_lang(name) == "fin"@);
        assert(ascii_lowered(name) =~= name);
    }
    if name == "cs"@ {
        lemma_plain_word(name);
        assert(name[0] == 'c' && name[1] == 's');
        assert(known_lang(name) == "ces"@);
        assert(ascii_lowered(name) =~= name);
    }
    if name == "czech"@ {
        lemma_plain_word(name);
        assert(name[0] == 'c' && name[1] == 'z');
        assert(known_lang(name) == "ces"@);
        assert(ascii_lowered(name) =~= name);
    }
    if name == "hu"@ {
        lemma_plain_word(name);
        assert(name[0] == 'h' && name[1] == 'u');
        assert(known_lang(name) == "hun"@);
        assert(ascii_lowered(name) =~= name);
    }
    if name == "hungarian"@ {
        lemma_plain_word(name);
        assert(name[0] == 'h' && name[1] == 'u');
        assert(known_lang(name) == "hun"@);
        assert(ascii_lowered(name) =~= name);
    }
    if name == "ro"@ {
        lemma_plain_word(name);
        assert(name[0] == 'r' && name[1] == 'o');
        assert(known_lang(name) == "ron"@);
        assert(ascii_lowered(name) =~= name);
    }
    if name == "romanian"@ {
        lemma_plain_word(name);
        assert(name[0] == 'r' && name[1] == 'o');
        assert(known_lang(name) == "ron"@);
        assert(ascii_lowered(name) =~= name);
    }
    if name == "el"@ {
        lemma_plain_word(name);
        assert(name[0] == 'e' && name[1] == 'l');
        assert(known_lang(name) == "ell"@);
        assert(ascii_lowered(name) =~= name);
    }
    if name == "greek"@ {
        lemma_plain_word(name);
        assert(name[0] == 'g' && name[1] == 'r');
        assert(known_lang(name) == "ell"@);
        assert(ascii_lowered(name) =~= name);
    }
    if name == "he"@ {
        lemma_plain_word(name);
        assert(name[0] == 'h' && name[1] == 'e');
        assert(known_lang(name) == "heb"@);
        assert(ascii_lowered(name) =~= name);
    }
    if name == "hebrew"@ {
        lemma_plain_word(name);
        assert(name[0] == 'h' && name[1] == 'e');
        assert(known_lang(name) == "heb"@);
        assert(ascii_lowered(name) =~= name);
    }
    if name == "th"@ {
        lemma_plain_word(name);
        assert(name[0] == 't' && name[1] == 'h');
        assert(known_lang(name) == "tha"@);
        assert(ascii_lowered(name) =~= name);
    }
    if name == "thai"@ {
        lemma_plain_word(name);
        assert(name[0] == 't' && name[1] == 'h');
        assert(known_lang(name) == "tha"@);
        assert(ascii_lowered(name) =~= name);
    }
    if name == "vi"@ {
        lemma_plain_word(name);
        assert(name[0] == 'v' && name[1] == 'i');
        assert(known_lang(name) == "vie"@);
        assert(ascii_lowered(name) =~= name);
    }
    if name == "vietnamese"@ {
        lemma_plain_word(name);
        assert(name[0] == 'v' && name[1] == 'i');
        assert(known_lang(name) == "vie"@);
        assert(ascii_lowered(name) =~= name);
    }
    if name == "uk"@ {
        lemma_plain_word(name);
        assert(name[0] == 'u' && name[1] == 'k');
        assert(known_lang(name) == "ukr"@);
        assert(ascii_lowered(name) =~= name);
    }
    if name == "ukrainian"@ {
        lemma_plain_word(name);
        assert(name[0] == 'u' && name[1] == 'k');
        assert(known_lang(name) == "ukr"@);
        assert(ascii_lowered(name) =~= name);
    }
}

/// The base of a layout's name is what stands before its first parenthesis or space.
pub proof fn law_base(name: Seq<char>, rest: Seq<char>)
    requires
        !name.contains(' '),
        !name.contains('('),
    ensures
        base_of(name) == name,
        base_of(name + seq!['('] + rest) == name,
        base_of(name + seq![' '] + rest) == name,
{
    let n = name.len() as int;
    lemma_until(name, '(', n);
    lemma_until(name, ' ', n);
    assert(name.take(n) =~= name);
    let a = name + seq!['('] + rest;
    let b = name + seq![' '] + rest;
    assert forall|j: int| 0 <= j < n implies a[j] != '(' && a[j] != ' ' && b[j] != '(' && b[j]
        != ' ' by {
        assert(name.contains(name[j]));
        assert(a[j] == name[j] && b[j] == name[j]);
    }
    assert(a[n] == '(' && b[n] == ' ');
    lemma_until(a, '(', n);
    lemma_until(b, ' ', n);
    lemma_until_bounds(a, ' ');
    lemma_until_bounds(b, '(');
    assert(until(a, ' ') >= n) by {
        if until(a, ' ') < n {
            assert(a[until(a, ' ')] == ' ');
        }
    }
    assert(until(b, '(') >= n) by {
        if until(b, '(') < n {
            assert(b[until(b, '(')] == '(');
        }
    }
    assert(until(b, '(') != n);
    assert(a.take(n) =~= name);
    assert(b.take(n) =~= name);
}

/// The language of a layout is that of its base name: what stands before the first
/// parenthesis or space, apart from white space around the whole.
pub proof fn law_layout_lang(
    lead: Seq<char>,
    name: Seq<char>,
    rest: Seq<char>,
    trail: Seq<char>,
)
    requires
        blank(lead),
        blank(trail),
        !name.contains(' '),
        !name.contains('('),
        rest.len() > 0 ==> rest[0] == '(' || rest[0] == ' ',
        bare(name + rest),
    ensures
        lang_of_lowered(lead + (name + rest) + trail) == known_lang(name),
{
    law_trim(lead, name + rest, trail);
    if rest.len() == 0 {
        law_base(name, rest);
        assert(name + rest =~= name);
    } else {
        let tail = rest.skip(1);
        law_base(name, tail);
        assert(name + rest =~= name + seq![rest[0]] + tail);
    }
}

/// The language of a layout is that of its name in lower case.
pub proof fn law_layouts_are_lowered(layout: Seq<char>)
    ensures
        lang_of_layout(layout) == lang_of_lowered(lowercase(layout)),
        lang_of_ascii(layout) == lang_of_lowered(ascii_lowered(layout)),
{
}

/// What a line of the listing adds to the list: its word, if that is not empty,
/// at most eight bytes long, and without space and quote.
pub open spec fn line_codes(line: Seq<char>) -> Seq<Seq<char>> {
    let word = trimmed(line);
    if word.len() > 0 && encode_utf8(word).len() <= 8 && !word.contains(' ') && !word.contains(
        '"',
    ) {
        seq![word]
    } else {
        Seq::empty()
    }
}

proof fn lemma_listed(lines: Seq<Seq<char>>, more: Seq<Seq<char>>, a: Seq<char>, b: Seq<char>)
    requires
        text_lines(a) == lines + text_lines(b),
        lines.len() <= 1,
        more == (if lines.len() == 1 {
            line_codes(lines[0])
        } else {
            Seq::empty()
        }),
    ensures
        listed_langs(a) == more + listed_langs(b),
{
    let f = |line: Seq<char>| trimmed(line);
    let keep = |word: Seq<char>| crate::lang::is_lang_code(word);
    let words = lines.map_values(f);
    let rest = text_lines(b).map_values(f);
    assert(text_lines(a).map_values(f) =~= words + rest);
    Seq::filter_distributes_over_add(words, rest, keep);
    reveal(Seq::filter);
    if lines.len() == 1 {
        assert(words.drop_last() =~= Seq::<Seq<char>>::empty());
        assert(words.drop_last().filter(keep) =~= Seq::<Seq<char>>::empty());
        assert(words.filter(keep) =~= line_codes(lines[0]));
    } else {
        assert(words.filter(keep) =~= Seq::<Seq<char>>::empty());
    }
}

/// Each line of the listing whose word is not empty, at most eight bytes long and
/// without space and quote gives that word, in the order of the lines; no other
/// line gives anything.
pub proof fn law_listing(line: Seq<char>, rest: Seq<char>)
    requires
        !line.contains('\n'),
        !(line.len() > 0 && line.last() == '\r'),
    ensures
        listed_langs(Seq::empty()) == Seq::<Seq<char>>::empty(),
        listed_langs(line) == line_codes(line),
        listed_langs(line + seq!['\n'] + rest) == line_codes(line) + listed_langs(rest),
        listed_langs(line + seq!['\r', '\n'] + rest) == line_codes(line) + listed_langs(rest),
{
    let none = Seq::<char>::empty();
    law_one_line(none);
    law_one_line(line);
    law_first_line(line, rest);
    reveal(Seq::filter);
    assert(listed_langs(none) =~= Seq::<Seq<char>>::empty());
    lemma_listed(seq![line], line_codes(line), line + seq!['\n'] + rest, rest);
    lemma_listed(seq![line], line_codes(line), line + seq!['\r', '\n'] + rest, rest);
    if line.len() == 0 {
        assert(line =~= none);
        lemma_trim_start_keeps(line);
        lemma_trim_end_keeps(line);
    } else {
        assert(text_lines(line) =~= seq![line] + text_lines(none));
        lemma_listed(seq![line], line_codes(line), line, none);
    }
    assert(line_codes(line) + Seq::<Seq<char>>::empty() =~= line_codes(line));
}

/// Words, each on a line of its own.
pub open spec fn on_lines(words: Seq<Seq<char>>) -> Seq<char>
    decreases words.len(),
{
    if words.len() == 0 {
        Seq::empty()
    } else {
        words[0] + seq!['\n'] + on_lines(words.skip(1))
    }
}

/// Whether a word may stand in the list of languages.
pub open spec fn may_be_listed(word: Seq<char>) -> bool {
    &&& word.len() > 0
    &&& bare(word)
    &&& encode_utf8(word).len() <= 8
    &&& !word.contains(' ')
    &&& !word.contains('"')
    &&& !word.contains('\n')
}

/// A listing of languages, one on each line after a heading of several words, is
/// read back as it was written.
pub proof fn law_listing_is_read_back(heading: Seq<char>, words: Seq<Seq<char>>)
    requires
        bare(heading),
        heading.contains(' '),
        !heading.contains('\n'),
        forall|i: int| 0 <= i < words.len() ==> may_be_listed(#[trigger] words[i]),
    ensures
        listed_langs(heading + seq!['\n'] + on_lines(words)) == words,
        listed_langs(on_lines(words)) == words,
    decreases words.len(),
{
    lemma_trim_start_keeps(heading);
    lemma_trim_end_keeps(heading);
    law_listing(heading, on_lines(words));
    if words.len() == 0 {
        assert(words =~= Seq::<Seq<char>>::empty());
    } else {
        let rest = words.skip(1);
        assert forall|i: int| 0 <= i < rest.len() implies may_be_listed(#[trigger] rest[i]) by {
            assert(rest[i] == words[i + 1]);
        }
        law_listing_is_read_back(heading, rest);
        assert(may_be_listed(words[0]));
        lemma_trim_start_keeps(words[0]);
        lemma_trim_end_keeps(words[0]);
        law_listing(words[0], on_lines(rest));
        assert(words =~= seq![words[0]] + rest);
    }
    assert(Seq::<Seq<char>>::empty() + listed_langs(on_lines(words)) =~= listed_langs(
        on_lines(words),
    ));
}

/// The layout that Hyprland reports is the value of the first line `str:` that has
/// one.
pub proof fn law_hyprland_report(line: Seq<char>, value: Seq<char>, rest: Seq<char>)
    requires
        !line.contains('\n'),
        !(line.len() > 0 && line.last() == '\r'),
    ensures
        hyprland_layout(Seq::empty()) is None,
        hyprland_layout(line) == hyprland_layout(line + seq!['\n']),
        trimmed(line) == "str:"@ + value && trimmed(value).len() > 0 ==> hyprland_layout(
            line + seq!['\n'] + rest,
        ) == Some(trimmed(value)),
        trimmed(line) == "str:"@ + value && trimmed(value).len() == 0 ==> hyprland_layout(
            line + seq!['\n'] + rest,
        ) == hyprland_layout(rest),
        !("str:"@.is_prefix_of(trimmed(line))) ==> hyprland_layout(line + seq!['\n'] + rest)
            == hyprland_layout(rest),
        hyprland_layout(line + seq!['\r', '\n'] + rest) == hyprland_layout(
            line + seq!['\n'] + rest,
        ),
{
    let none = Seq::<char>::empty();
    law_one_line(none);
    law_one_line(line);
    law_first_line(line, rest);
    law_first_line(line, none);
    assert(line + seq!['\n'] + none =~= line + seq!['\n']);
    let word = trimmed(line);
    let all = seq![line] + text_lines(rest);
    assert(all[0] == line);
    assert(all.skip(1) =~= text_lines(rest));
    let one = seq![line] + text_lines(none);
    assert(one =~= seq![line]);
    let n = "str:"@.len() as int;
    if word == "str:"@ + value {
        assert(word.subrange(0, n) =~= "str:"@);
        assert(word.skip(n) =~= value);
    }
    if line.len() == 0 {
        reveal_strlit("str:");
        assert(line =~= none);
        lemma_trim_start_keeps(line);
        lemma_trim_end_keeps(line);
        assert(one.skip(1) =~= Seq::<Seq<char>>::empty());
        assert(first_layout(one.skip(1)) is None);
    }
}

/// The layout that fcitx5 reports is what follows the first `keyboard-` in the
/// report, less the white space around it.
pub proof fn law_fcitx_report(report: Seq<char>, head: Seq<char>, layout: Seq<char>)
    ensures
        splits(trimmed(report), head, "keyboard-"@, layout) && is_first(
            trimmed(report),
            head,
            "keyboard-"@,
        ) && layout.len() > 0 ==> fcitx_layout(report) == Some(layout),
        splits(trimmed(report), head, "keyboard-"@, layout) && is_first(
            trimmed(report),
            head,
            "keyboard-"@,
        ) && layout.len() == 0 ==> fcitx_layout(report) is None,
        (forall|h: Seq<char>, u: Seq<char>|
            !(#[trigger] splits(trimmed(report), h, "keyboard-"@, u))) ==> fcitx_layout(
            report,
        ) is None,
{
    let s = trimmed(report);
    let part = "keyboard-"@;
    law_rest_after(s, part);
    if let Some(rest) = rest_after(s, part) {
        let h = choose|h: Seq<char>| is_first(s, h, part) && #[trigger] splits(s, h, part, rest);
        if splits(s, head, part, layout) && is_first(s, head, part) {
            assert(h.len() == head.len());
            let n = (h.len() + part.len()) as int;
            assert(layout =~= s.skip(n));
            assert(rest =~= s.skip(n));
        }
    }
}

/// The active layout is the one that Hyprland reports, else the one that fcitx5
/// reports, else `us`; nothing makes it fail.
pub proof fn law_active_layout(log: Log)
    ensures
        ({
            let (next, r) = detect_layout_spec(log);
            let n = log.asked.len() as int;
            let hyprland = said(end_of(n, next));
            let fcitx = said(end_of(n + 1, next));
            &&& grows(log, next)
            &&& !(r matches Err(StopView::Fail(_)))
            &&& r matches Ok(layout) ==> {
                &&& ran(
                    encode_utf8("hyprctl"@),
                    seq!["getoption"@, "input:kb_layout"@],
                    false,
                    true,
                    n,
                    next,
                )
                &&& if hyprland is Some && hyprland_layout(hyprland->Some_0) is Some {
                    &&& layout == hyprland_layout(hyprland->Some_0)->Some_0
                    &&& next.asked.len() == n + 1
                } else {
                    &&& ran(encode_utf8("fcitx5-remote"@), seq!["-n"@], false, true, n + 1, next)
                    &&& next.asked.len() == n + 2
                    &&& layout == (if fcitx is Some && fcitx_layout(fcitx->Some_0) is Some {
                        fcitx_layout(fcitx->Some_0)->Some_0
                    } else {
                        "us"@
                    })
                }
            }
        }),
{
}

/// The languages that are installed are those of the listing that tesseract
/// prints. The list fails only where tesseract is not found or cannot be run.
pub proof fn law_installed_langs(log: Log)
    ensures
        ({
            let (next, r) = list_langs_spec(log);
            let from = log.asked.len() as int;
            let last = next.asked.len() - 1;
            &&& grows(log, next)
            &&& r matches Ok(langs) ==> exists|tesseract: Seq<u8>| #[trigger]
                picked("tesseract"@, tesseract, from, last, next) && ran(
                    tesseract,
                    seq!["--list-langs"@],
                    false,
                    true,
                    last,
                    next,
                ) && (end_of(last, next) matches Running::Exited { stdout, .. } && langs
                    == listed_langs(utf8_lossy(stdout@)))
            &&& r matches Err(StopView::Fail(m)) ==> {
                ||| missed("tesseract"@, from, last + 1, next) && m
                    == "required tool not found on PATH: "@ + "tesseract"@
                ||| exists|tesseract: Seq<u8>| #[trigger]
                    picked("tesseract"@, tesseract, from, last, next) && ran(
                        tesseract,
                        seq!["--list-langs"@],
                        false,
                        true,
                        last,
                        next,
                    ) && (end_of(last, next) matches Running::Failed(reason) && m
                        == "cannot run "@ + "tesseract"@ + ": "@ + reason@)
            }
        }),
{
    law_search("tesseract"@, log);
    let (l1, r1) = which_spec("tesseract"@, log);
    let (next, r) = list_langs_spec(log);
    if let Ok(tesseract) = r1 {
        let n = l1.asked.len() as int;
        assert(grows(l1, next));
        lemma_grows_on(log, l1, next);
        lemma_picked_grows("tesseract"@, tesseract, log.asked.len() as int, n, l1, next);
        if n < log.replies.len() && log.replies[n] is Ran {
            assert(next.asked.len() - 1 == n);
            assert(ran(tesseract, seq!["--list-langs"@], false, true, n, next));
        }
    }
}

/// Of the installed languages, the detected one is taken, else English, else the
/// first; there is none to take only where none is installed.
pub proof fn law_pick(langs: Seq<Seq<char>>, detected: Seq<char>)
    ensures
        langs.contains(detected) ==> fallback_lang(langs, detected) == Ok::<Seq<char>, StopView>(
            detected,
        ),
        !langs.contains(detected) && langs.contains("eng"@) ==> fallback_lang(langs, detected)
            == Ok::<Seq<char>, StopView>("eng"@),
        !langs.contains(detected) && !langs.contains("eng"@) && langs.len() > 0 ==> fallback_lang(
            langs,
            detected,
        ) == Ok::<Seq<char>, StopView>(langs[0]),
        langs.len() == 0 ==> fallback_lang(langs, detected) == Err::<Seq<char>, StopView>(
            StopView::Fail("no usable tesseract language installed (need at least 'eng')"@),
        ),
{
}

/// The language is the requested one if it is installed, else that of the active
/// layout if that is installed, else English if that is installed, else the first
/// that is. It is missing only where the list is, or where nothing is installed.
pub proof fn law_settled_lang(requested: Seq<char>, log: Log)
    ensures
        ({
            let (next, r) = resolve_lang_spec(requested, log);
            let (l1, listed) = list_langs_spec(log);
            &&& grows(log, next)
            &&& listed is Err ==> (next, r) == (l1, Err::<Seq<char>, StopView>(listed->Err_0))
            &&& listed matches Ok(langs) ==> {
                let (l2, active) = detect_layout_spec(l1);
                &&& requested.len() > 0 && langs.contains(requested) ==> (next, r) == (
                    l1,
                    Ok::<Seq<char>, StopView>(requested),
                )
                &&& !(requested.len() > 0 && langs.contains(requested)) ==> {
                    &&& next == l2
                    &&& active is Err ==> r == Err::<Seq<char>, StopView>(active->Err_0)
                    &&& active matches Ok(layout) ==> {
                        let code = lang_of_layout(layout);
                        &&& langs.contains(code) ==> r == Ok::<Seq<char>, StopView>(code)
                        &&& !langs.contains(code) && langs.contains("eng"@) ==> r == Ok::<
                            Seq<char>,
                            StopView,
                        >("eng"@)
                        &&& !langs.contains(code) && !langs.contains("eng"@) && langs.len() > 0
                            ==> r == Ok::<Seq<char>, StopView>(langs[0])
                        &&& langs.len() == 0 ==> r == Err::<Seq<char>, StopView>(
                            StopView::Fail(
                                "no usable tesseract language installed (need at least 'eng')"@,
                            ),
                        )
                    }
                }
            }
        }),
{
    law_installed_langs(log);
    let l1 = list_langs_spec(log).0;
    law_active_layout(l1);
    lemma_grows_on(log, l1, detect_layout_spec(l1).0);
}

/// The command `lang` tells the layout that was active at its start, and the
/// language that a reading without a requested one would take after that.
pub proof fn law_lang_command(log: Log)
    ensures
        ({
            let (next, r) = detect_lang_spec(log);
            let (l1, active) = detect_layout_spec(log);
            let (l2, settled) = resolve_lang_spec(Seq::empty(), l1);
            &&& grows(log, next)
            &&& active is Err ==> r == Err::<(Seq<char>, Seq<char>), StopView>(active->Err_0)
            &&& active matches Ok(layout) ==> {
                &&& next == l2
                &&& settled matches Ok(lang) ==> r == Ok::<(Seq<char>, Seq<char>), StopView>(
                    (layout, lang),
                )
                &&& settled is Err ==> r == Err::<(Seq<char>, Seq<char>), StopView>(
                    settled->Err_0,
                )
            }
        }),
{
    law_active_layout(log);
    let l1 = detect_layout_spec(log).0;
    law_settled_lang(Seq::empty(), l1);
    lemma_grows_on(log, l1, resolve_lang_spec(Seq::empty(), l1).0);
}

} // verus!
