use textify::engine::{confidence_fields, parse_size, prepare_args};
use textify::lang::{
    base_to_lang, layout_base, layout_to_lang, lowered_to_lang, parse_fcitx, parse_hyprland,
    parse_langs, pick_lang,
};
use textify::options::{parse_common, take_value, OcrOptions};
use textify::paths::{file_name, join_path, paths_equal};
use textify::text::{after, after_prefix, lines, number, parse_u32, same, split, trim, trim_end};
use textify::host::Stop;

fn words(list: &[&str]) -> Vec<String> {
    list.iter().map(|s| s.to_string()).collect()
}

#[test]
fn trim_agrees_with_the_standard_library() {
    for s in ["", " ", "a", " a ", "\t\u{a0}x y\u{3000}\n", "\u{200b}z\u{200b}", "\u{85}\u{2028}"] {
        assert_eq!(trim(s), s.trim());
        assert_eq!(trim_end(s), s.trim_end());
    }
    for u in 0..0x3100u32 {
        if let Some(c) = char::from_u32(u) {
            let s = c.to_string();
            assert_eq!(trim(&s), s.trim());
        }
    }
}

#[test]
fn lines_and_split_agree_with_the_standard_library() {
    for s in ["", "\n", "a", "a\n", "a\r\nb", "a\r", "a\n\nb\n", "\r\n\r\n", "x\r\r\ny"] {
        let want: Vec<&str> = s.lines().collect();
        assert_eq!(lines(s), want);
    }
    for s in ["", "\t", "a", "a\tb", "\ta\t\tb\t"] {
        let want: Vec<&str> = s.split('\t').collect();
        assert_eq!(split(s, '\t'), want);
    }
}

#[test]
fn searches_agree_with_the_standard_library() {
    assert_eq!(after_prefix("str: br", "str:"), Some(" br".to_string()));
    assert_eq!(after_prefix("int: 1", "str:"), None);
    assert_eq!(after("keyboard-us", "keyboard-"), Some("us".to_string()));
    assert_eq!(after("x keyboard-a keyboard-b", "keyboard-"), Some("a keyboard-b".to_string()));
    assert_eq!(after("pinyin", "keyboard-"), None);
    assert_eq!(after("keyboard-", "keyboard-"), Some(String::new()));
    assert_eq!(after("", ""), Some(String::new()));
    assert!(same("pt_br", "pt_br"));
    assert!(!same("pt_br", "pt-br"));
    assert!(!same("pt", "pt_br"));
}

#[test]
fn numbers_agree_with_the_standard_library() {
    for n in [0u128, 7, 10, 99, 100, 4_294_967_296, u128::MAX] {
        assert_eq!(number(n), n.to_string());
    }
    for s in ["", "+", "-1", "0", "007", "+12", "++1", "4294967295", "4294967296", "1 ", "٣"] {
        assert_eq!(parse_u32(s), s.parse::<u32>().ok());
    }
    assert_eq!(parse_u32("99999999999999999999999999999999999999x"), None);
}

#[test]
fn size_of_an_image_is_read() {
    assert_eq!(parse_size("640x480\n"), (640, 480));
    assert_eq!(parse_size("640"), (0, 0));
    assert_eq!(parse_size("axb"), (0, 0));
    assert_eq!(parse_size("12xb"), (12, 0));
    assert_eq!(parse_size("1x2x3"), (1, 0));
    let written = format!("{}x{}", number(1199), number(4294967295));
    assert_eq!(parse_size(&written), (1199, 4294967295));
}

#[test]
fn only_small_captures_are_enlarged() {
    let small = ["in.png", "-colorspace", "Gray", "-resize", "300%", "-sharpen", "0x0.5", "out.png"];
    let large = ["in.png", "-colorspace", "Gray", "-sharpen", "0x0.5", "out.png"];
    assert_eq!(prepare_args("in.png", 1199, 1199, "out.png"), small);
    assert_eq!(prepare_args("in.png", 1, 1, "out.png"), small);
    assert_eq!(prepare_args("in.png", 1200, 10, "out.png"), large);
    assert_eq!(prepare_args("in.png", 10, 1200, "out.png"), large);
    assert_eq!(prepare_args("in.png", 0, 10, "out.png"), large);
    assert_eq!(prepare_args("in.png", 0, 0, "out.png"), large);
}

#[test]
fn language_list_skips_the_heading() {
    let listing = "List of available languages in \"/usr/share/tessdata/\" (3):\neng\nosd\r\n  por  \n\nchi_sim_vert\n";
    assert_eq!(parse_langs(listing), ["eng", "osd", "por"]);
    assert_eq!(parse_langs("12345678\n123456789\né€€\né€€x\n"), ["12345678", "é€€"]);
    assert_eq!(parse_langs("a\"b\na b\n"), Vec::<String>::new());
}

#[test]
fn layouts_map_to_languages() {
    let cases = [
        ("br", "por"), ("pt_br", "por"), ("pt-br", "por"), ("Portugal", "por"), ("mexico", "spa"),
        ("fr", "fra"), ("german", "deu"), ("it", "ita"), ("nl", "nld"), ("ru", "rus"),
        ("ja", "jpn"), ("cn", "chi_sim"), ("ko", "kor"), ("ar", "ara"), ("hindi", "hin"),
        ("pl", "pol"), ("tr", "tur"), ("sv", "swe"), ("da", "dan"), ("no", "nor"), ("fi", "fin"),
        ("cs", "ces"), ("hu", "hun"), ("ro", "ron"), ("el", "ell"), ("he", "heb"), ("th", "tha"),
        ("vi", "vie"), ("uk", "ukr"), ("us", "eng"), ("", "eng"), ("br,us", "eng"),
    ];
    for (layout, lang) in cases {
        assert_eq!(layout_to_lang(layout), lang);
        assert_eq!(layout_to_lang(&layout.to_uppercase()), lang);
    }
    assert_eq!(base_to_lang("BR"), "eng");
    assert_eq!(lowered_to_lang(" ru "), "rus");
}

#[test]
fn case_and_space_of_a_layout_make_no_difference() {
    for layout in ["Pt_Br", "gErMaN (Austria)", "\tRU ", "", "QWERTY", "Mexico", " uk"] {
        let lang = layout_to_lang(layout);
        assert_eq!(layout_to_lang(&layout.to_ascii_uppercase()), lang);
        assert_eq!(layout_to_lang(&layout.to_ascii_lowercase()), lang);
        assert_eq!(layout_to_lang(layout.trim()), lang);
    }
    for layout in ["\u{a0}BR\u{3000}", "\u{2003}Ja", "\u{130}T", "\u{3a3}", "\u{212a}O"] {
        let lang = layout_to_lang(layout);
        assert_eq!(layout_to_lang(&layout.to_lowercase()), lang);
        assert_eq!(layout_to_lang(layout.trim()), lang);
    }
    assert_eq!(layout_to_lang("\u{a0}BR\u{3000}"), "por");
    assert_eq!(layout_to_lang("\u{212a}O"), "kor");
}

#[test]
fn a_country_after_the_layout_makes_no_difference() {
    assert_eq!(layout_base("br(brazil)"), "br");
    assert_eq!(layout_to_lang("BR (Brazil)"), "por");
    assert_eq!(layout_to_lang("Portuguese (Portugal)"), "por");
    assert_eq!(layout_to_lang("de(Switzerland)"), layout_to_lang("de"));
    assert_eq!(layout_to_lang(" (x)"), "eng");
}

#[test]
fn what_follows_a_space_after_the_layout_makes_no_difference() {
    for suffix in ["", "us", "br", "(x) de", " \t", "intl., with dead keys"] {
        assert_eq!(lowered_to_lang(&format!("fr {suffix}")), "fra");
        assert_eq!(lowered_to_lang(&format!(" fr {suffix}")), "fra");
        assert_eq!(lowered_to_lang(&format!("fr \t {suffix}")), "fra");
        assert_eq!(layout_to_lang(&format!("FR {suffix}")), "fra");
    }
    assert_eq!(lowered_to_lang("  br"), "por");
    assert_eq!(lowered_to_lang("fr\t us"), "eng");
}

#[test]
fn layout_reports_are_read() {
    assert_eq!(parse_hyprland("option input:kb_layout\n\tstr: br\n\tset: true\n"), Some("br".to_string()));
    assert_eq!(parse_hyprland("str:\nstr: us,de\n"), Some("us,de".to_string()));
    assert_eq!(parse_hyprland("int: 1\n"), None);
    assert_eq!(parse_fcitx("keyboard-de\n"), Some("de".to_string()));
    assert_eq!(parse_fcitx("keyboard-\n"), None);
    assert_eq!(parse_fcitx("pinyin\n"), None);
}

#[test]
fn fallback_prefers_the_detected_language_then_english() {
    let ok = |langs: &[&str], detected: &str| match pick_lang(&words(langs), detected) {
        Ok(lang) => lang,
        Err(_) => panic!("a language was expected"),
    };
    assert_eq!(ok(&["eng", "por"], "por"), "por");
    assert_eq!(ok(&["osd", "eng"], "por"), "eng");
    assert_eq!(ok(&["osd", "deu"], "por"), "osd");
    match pick_lang(&Vec::new(), "por") {
        Err(Stop::Fail(message)) => {
            assert_eq!(message, "no usable tesseract language installed (need at least 'eng')")
        }
        _ => panic!("a failure was expected"),
    }
}

#[test]
fn confidence_fields_are_the_eleventh_columns() {
    let head = "level\tpage_num\tblock_num\tpar_num\tline_num\tword_num\tleft\ttop\twidth\theight\tconf\ttext\n";
    let table = format!(
        "{head}1\t1\t0\t0\t0\t0\t0\t0\t9\t9\t-1\t\n5\t1\t1\t1\t1\t1\t0\t0\t9\t9\t 96.5 \tword\nshort\trow\n5\t1\t1\t1\t1\t2\t0\t0\t9\t9\t80\t\n"
    );
    assert_eq!(confidence_fields(&table), ["-1", "96.5", "80"]);
    assert_eq!(confidence_fields(head), Vec::<String>::new());
    assert_eq!(confidence_fields(""), Vec::<String>::new());
}

#[test]
fn paths_are_joined_and_compared_by_components() {
    assert_eq!(join_path(b"/usr/bin", b"grim"), b"/usr/bin/grim");
    assert_eq!(join_path(b"/usr/bin/", b"grim"), b"/usr/bin/grim");
    assert_eq!(join_path(b"", b"grim"), b"grim");
    assert_eq!(join_path(b"/usr", b"/etc"), b"/etc");
    assert!(paths_equal(b"/tmp", b"/tmp"));
    assert!(paths_equal(b"//tmp/./", b"/tmp"));
    assert!(!paths_equal(b"tmp", b"/tmp"));
    assert!(!paths_equal(b"./tmp", b"tmp"));
    assert!(!paths_equal(b"/tmp/x", b"/tmp"));
    assert_eq!(file_name(b"/usr/bin/slurp"), b"slurp");
    assert_eq!(file_name(b"/usr/bin/slurp/."), b"slurp");
    assert_eq!(file_name(b"/usr/.."), b"");
    assert_eq!(file_name(b"/"), b"");
}

#[test]
fn options_have_their_defaults() {
    let opts = OcrOptions::default();
    assert!(opts.region && opts.copy && !opts.json);
    assert_eq!(opts.file, None);
    assert_eq!(opts.lang, "");
    let twin = opts.clone();
    assert!(twin.region && twin.copy && !twin.json && twin.lang.is_empty());
}

#[test]
fn options_may_stand_anywhere() {
    match parse_common(&words(&["a.png", "--lang", "por", "b", "--json", "--copy"])) {
        Ok((opts, positional)) => {
            assert_eq!(opts.lang, "por");
            assert!(opts.json && opts.copy && opts.region);
            assert_eq!(positional, ["a.png", "b"]);
        }
        Err(_) => panic!("options were expected"),
    }
    match parse_common(&words(&["--lang", "--json"])) {
        Ok((opts, positional)) => {
            assert_eq!(opts.lang, "--json");
            assert!(!opts.json && positional.is_empty());
        }
        Err(_) => panic!("options were expected"),
    }
}

#[test]
fn plain_words_are_kept_in_order() {
    let raw = words(&["x", "-l", "lang", ""]);
    match parse_common(&raw) {
        Ok((opts, positional)) => {
            assert_eq!(positional, raw);
            assert!(opts.lang.is_empty() && opts.copy && !opts.json);
        }
        Err(_) => panic!("options were expected"),
    }
}

#[test]
fn a_flag_without_its_value_fails() {
    match parse_common(&words(&["--json", "--lang"])) {
        Err(Stop::Fail(message)) => assert_eq!(message, "--lang needs a value"),
        _ => panic!("a failure was expected"),
    }
    let mut i: usize = 0;
    match take_value(&words(&["--lang", "deu"]), &mut i, "--lang") {
        Ok(value) => assert_eq!(value, "deu"),
        Err(_) => panic!("a value was expected"),
    }
    assert_eq!(i, 1);
}
