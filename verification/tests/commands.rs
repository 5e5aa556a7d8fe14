use textify::cli::{cmd_langs, dispatch, langs_line, Output};
use textify::engine::{image_size, preprocess, run_ocr};
use textify::host::{Creation, Piping, Reply, Request, Running, Session, Stop, PRIVATE_MODE};
use textify::lang::{detect_layout, list_langs, resolve_lang};
use textify::options::OcrOptions;
use textify::tempfile::{temp_dirs, TempFile};
use textify::tools::{run, which};

/// A machine with every tool installed; fields change what it replies.
struct Machine {
    missing: Vec<&'static str>,
    broken: Vec<&'static str>,
    langs: &'static str,
    layout: &'static str,
    region: &'static str,
    size: &'static str,
    text: &'static str,
    input: Result<String, String>,
    runtime: Option<&'static str>,
    creations: Vec<&'static str>,
}

fn machine() -> Machine {
    Machine {
        missing: Vec::new(),
        broken: Vec::new(),
        langs: "List of available languages (2):\neng\npor\n",
        layout: "str: br\n",
        region: "10,20 300x200\n",
        size: "300x200",
        text: "hello world \n\n",
        input: Ok("from stdin\n".to_string()),
        runtime: Some("/run/user/1000"),
        creations: Vec::new(),
    }
}

fn shown(bytes: &[u8]) -> String {
    String::from_utf8_lossy(bytes).into_owned()
}

fn exited(success: bool, stdout: &str, stderr: &str) -> Reply {
    Reply::Ran(Running::Exited {
        success,
        status: if success { "exit status: 0".to_string() } else { "exit status: 1".to_string() },
        stdout: stdout.as_bytes().to_vec(),
        stderr: stderr.as_bytes().to_vec(),
    })
}

impl Machine {
    fn reply(&mut self, request: &Request) -> Reply {
        match request {
            Request::SearchPath => Reply::Dirs(vec![b"/opt/bin".to_vec(), b"/usr/bin".to_vec()]),
            Request::IsFile { path } => {
                let path = shown(path);
                let here = path.starts_with("/usr/bin/") || path == "shot.png";
                Reply::Flag(here && !self.missing.iter().any(|m| path.ends_with(m)))
            }
            Request::IsDir { path } => Reply::Flag(path.starts_with(b"/run") || path.starts_with(b"/tmp")),
            Request::RuntimeDir => Reply::Place(self.runtime.map(|p| p.as_bytes().to_vec())),
            Request::Stamp => Reply::Stamp { nonce: 77, pid: 42 },
            Request::CreateDir { .. } => Reply::Created(
                match if self.creations.is_empty() { "made" } else { self.creations.remove(0) } {
                    "made" => Creation::Made,
                    "exists" => Creation::Exists,
                    "denied" => Creation::Denied,
                    other => Creation::Failed(other.to_string()),
                },
            ),
            Request::Discard { .. } => Reply::Discarded,
            Request::Run { program, args, .. } => {
                let program = shown(program);
                let name = program.rsplit('/').next().unwrap().to_string();
                if self.broken.iter().any(|b| *b == name) {
                    return exited(false, "", " broken \n");
                }
                match name.as_str() {
                    "hyprctl" => exited(true, self.layout, ""),
                    "fcitx5-remote" => exited(true, "keyboard-de\n", ""),
                    "slurp" => exited(true, self.region, ""),
                    "identify" => exited(true, self.size, ""),
                    "tesseract" if args[0] == "--list-langs" => exited(true, self.langs, ""),
                    "tesseract" if args.len() == 7 => exited(
                        true,
                        "h\n1\t2\t3\t4\t5\t6\t7\t8\t9\t10\t91.5\thello\n",
                        "",
                    ),
                    "tesseract" => exited(true, self.text, ""),
                    _ => exited(true, "", ""),
                }
            }
            Request::Pipe { .. } => Reply::Piped(if self.broken.contains(&"wl-copy") {
                Piping::Exited { success: false, status: "exit status: 1".to_string() }
            } else {
                Piping::Exited { success: true, status: "exit status: 0".to_string() }
            }),
            Request::ReadInput => Reply::Input(self.input.clone()),
        }
    }

    /// Carries out `step` to its end, and gives the requests that it put.
    fn carry<T>(
        &mut self,
        step: impl Fn(&mut Session) -> Result<T, Stop>,
    ) -> (Result<T, String>, Vec<Request>) {
        let mut replies: Vec<Reply> = Vec::new();
        let mut asked: Vec<Request> = Vec::new();
        loop {
            let outcome = step(&mut Session::new(&replies));
            match outcome {
                Ok(value) => return (Ok(value), asked),
                Err(Stop::Fail(message)) => return (Err(message), asked),
                Err(Stop::Mismatch) => panic!("a reply did not fit"),
                Err(Stop::Ask(request)) => {
                    replies.push(self.reply(&request));
                    asked.push(request);
                }
            }
        }
    }

    fn command(&mut self, line: &[&str]) -> (Result<Output, String>, Vec<Request>) {
        let args: Vec<String> = line.iter().map(|s| s.to_string()).collect();
        self.carry(|s| dispatch(&args, s))
    }
}

/// The command lines that were run.
fn commands(asked: &[Request]) -> Vec<String> {
    let mut r = Vec::new();
    for request in asked {
        if let Request::Run { program, args, .. } = request {
            r.push(format!("{} {}", shown(program), args.join("|")));
        }
    }
    r
}

/// The directories that were asked for, and those that were removed.
fn directories(asked: &[Request]) -> (Vec<String>, Vec<String>) {
    let mut made = Vec::new();
    let mut gone = Vec::new();
    for request in asked {
        match request {
            Request::CreateDir { path, mode } => {
                assert_eq!(*mode, 0o700);
                made.push(shown(path));
            }
            Request::Discard { dir, .. } => gone.push(shown(dir)),
            _ => {}
        }
    }
    (made, gone)
}

fn line(output: Result<Output, String>) -> String {
    match output {
        Ok(Output::Line(text)) => text,
        other => panic!("a line was expected, not {:?}", other),
    }
}

#[test]
fn region_is_captured_prepared_read_and_copied() {
    let (output, asked) = machine().command(&["region"]);
    assert_eq!(line(output), "hello world");
    let shot = "/run/user/1000/textify-region-42-77-0-0/output.png";
    let prepared = "/run/user/1000/textify-proc-42-77-1-0/output.png";
    assert_eq!(
        commands(&asked),
        [
            "/usr/bin/tesseract --list-langs".to_string(),
            "hyprctl getoption|input:kb_layout".to_string(),
            "/usr/bin/slurp ".to_string(),
            format!("/usr/bin/grim -g|10,20 300x200|{shot}"),
            format!("/usr/bin/identify -format|%wx%h|{shot}"),
            format!("/usr/bin/magick {shot}|-colorspace|Gray|-resize|300%|-sharpen|0x0.5|{prepared}"),
            format!("/usr/bin/tesseract {prepared}|stdout|-l|por|--psm|6"),
            format!("/usr/bin/tesseract {prepared}|stdout|-l|por|--psm|6|tsv"),
        ]
    );
    let (made, gone) = directories(&asked);
    assert_eq!(made.len(), 2);
    assert_eq!(gone, [made[1].clone(), made[0].clone()]);
    let piped = asked.iter().any(|r| matches!(r, Request::Pipe { input, .. } if input == "hello world \n\n"));
    assert!(piped);
}

#[test]
fn full_screen_is_not_enlarged() {
    let mut m = machine();
    m.size = "2560x1440";
    let (output, asked) = m.command(&["full", "--lang", "eng", "--json"]);
    match output {
        Ok(Output::Json(result)) => {
            assert_eq!(result.text, "hello world");
            assert_eq!(result.lang, "eng");
            assert_eq!(result.source, "screen");
            assert_eq!(result.confidence, ["91.5"]);
            assert!(result.copied);
        }
        other => panic!("a result was expected, not {:?}", other),
    }
    let run = commands(&asked);
    assert_eq!(run[1], "/usr/bin/grim /run/user/1000/textify-full-42-77-0-0/output.png");
    assert!(run.iter().all(|c| !c.contains("-resize") && !c.starts_with("hyprctl")));
}

#[test]
fn file_is_read_as_it_is() {
    let (output, asked) = machine().command(&["file", "shot.png", "--json"]);
    match output {
        Ok(Output::Json(result)) => assert_eq!(result.source, "shot.png"),
        other => panic!("a result was expected, not {:?}", other),
    }
    let (made, gone) = directories(&asked);
    assert!(made.is_empty() && gone.is_empty());
    assert_eq!(commands(&asked)[2], "/usr/bin/tesseract shot.png|stdout|-l|por|--psm|6");
    let (output, _) = machine().command(&["file", "none.png"]);
    assert_eq!(output.unwrap_err(), "file not found: none.png");
    for line in [vec!["file"], vec!["file", ""], vec!["file", "--json"]] {
        let (output, asked) = machine().command(&line);
        assert_eq!(output.unwrap_err(), "usage: textify file <path> [--lang LANG] [--json]");
        assert!(asked.is_empty());
    }
}

#[test]
fn captures_are_removed_on_every_way_out() {
    for tool in ["", "slurp", "grim", "identify", "magick", "tesseract", "wl-copy"] {
        for command in ["region", "full"] {
            let mut m = machine();
            m.broken = vec![tool];
            let (_, asked) = m.command(&[command]);
            let (mut made, mut gone) = directories(&asked);
            made.sort();
            gone.sort();
            assert_eq!(made, gone);
            let mut m = machine();
            m.missing = vec![tool];
            if !tool.is_empty() {
                let (_, asked) = m.command(&[command]);
                let (mut made, mut gone) = directories(&asked);
                made.sort();
                gone.sort();
                assert_eq!(made, gone);
            }
        }
    }
}

#[test]
fn without_magick_the_raw_capture_is_read() {
    let mut m = machine();
    m.missing = vec!["magick"];
    let (output, asked) = m.command(&["full"]);
    assert_eq!(line(output), "hello world");
    let shot = "/run/user/1000/textify-full-42-77-0-0/output.png";
    assert_eq!(commands(&asked)[3], format!("/usr/bin/tesseract {shot}|stdout|-l|por|--psm|6"));
    let mut m = machine();
    m.broken = vec!["magick"];
    let (output, _) = m.carry(|s| preprocess("a.png", s));
    assert_eq!(output.unwrap_err(), "magick exited with exit status: 1");
}

#[test]
fn a_cancelled_selection_fails() {
    let mut m = machine();
    m.region = " \n";
    let (output, asked) = m.command(&["region"]);
    assert_eq!(output.unwrap_err(), "selection cancelled");
    let (made, gone) = directories(&asked);
    assert_eq!(made, gone);
    assert_eq!(made.len(), 1);
}

#[test]
fn blank_text_is_not_copied() {
    let mut m = machine();
    m.text = " \n";
    let (output, asked) = m.command(&["full", "--json"]);
    match output {
        Ok(Output::Json(result)) => assert!(!result.copied && result.text.is_empty()),
        other => panic!("a result was expected, not {:?}", other),
    }
    assert!(!asked.iter().any(|r| matches!(r, Request::Pipe { .. })));
    let mut m = machine();
    m.broken = vec!["wl-copy"];
    match m.command(&["full", "--json"]).0 {
        Ok(Output::Json(result)) => assert!(!result.copied),
        other => panic!("a result was expected, not {:?}", other),
    }
}

#[test]
fn failing_tools_are_reported() {
    let mut m = machine();
    m.broken = vec!["grim"];
    assert_eq!(m.command(&["full"]).0.unwrap_err(), "grim exited with exit status: 1: broken");
    let mut m = machine();
    m.broken = vec!["slurp"];
    assert_eq!(m.command(&["region"]).0.unwrap_err(), "slurp exited with exit status: 1: broken");
    let mut m = machine();
    m.missing = vec!["grim"];
    assert_eq!(m.command(&["full"]).0.unwrap_err(), "required tool not found on PATH: grim");
    let mut m = machine();
    m.missing = vec!["tesseract"];
    assert_eq!(m.command(&["langs"]).0.unwrap_err(), "required tool not found on PATH: tesseract");
}

#[test]
fn program_output_is_decoded() {
    let silent = [Reply::Ran(Running::Exited {
        success: false,
        status: "exit status: 2".to_string(),
        stdout: Vec::new(),
        stderr: b"\n".to_vec(),
    })];
    match run(&b"/usr/bin/slurp".to_vec(), Vec::new(), &mut Session::new(&silent)) {
        Err(Stop::Fail(m)) => assert_eq!(m, "slurp exited with exit status: 2: no error output"),
        _ => panic!("a failure was expected"),
    }
    let unstarted = [Reply::Ran(Running::Failed("denied".to_string()))];
    match run(&b"/usr/bin/slurp".to_vec(), Vec::new(), &mut Session::new(&unstarted)) {
        Err(Stop::Fail(m)) => assert_eq!(m, "cannot run /usr/bin/slurp: denied"),
        _ => panic!("a failure was expected"),
    }
    let odd = [Reply::Ran(Running::Exited {
        success: true,
        status: "exit status: 0".to_string(),
        stdout: b"ol\xc3\xa1 \xff!".to_vec(),
        stderr: Vec::new(),
    })];
    match run(&b"x".to_vec(), Vec::new(), &mut Session::new(&odd)) {
        Ok(text) => assert_eq!(text, "olá \u{fffd}!"),
        _ => panic!("a text was expected"),
    }
    match run(&b"x".to_vec(), Vec::new(), &mut Session::new(&[Reply::Discarded])) {
        Err(Stop::Mismatch) => {}
        _ => panic!("a mismatch was expected"),
    }
}

#[test]
fn tools_come_from_the_search_path() {
    let (path, asked) = machine().carry(|s| which("grim", s));
    assert_eq!(path.unwrap(), b"/usr/bin/grim");
    assert_eq!(asked.len(), 3);
    assert!(matches!(&asked[1], Request::IsFile { path } if path == b"/opt/bin/grim"));
}

#[test]
fn languages_are_settled_in_order() {
    let mut m = machine();
    assert_eq!(m.carry(|s| list_langs(s)).0.unwrap(), ["eng", "por"]);
    assert_eq!(m.carry(|s| resolve_lang("eng", s)).0.unwrap(), "eng");
    assert_eq!(m.carry(|s| resolve_lang("kor", s)).0.unwrap(), "por");
    m.layout = "str: us\n";
    assert_eq!(m.carry(|s| resolve_lang("", s)).0.unwrap(), "eng");
    m.langs = "heading of the list\nosd\nfra\n";
    assert_eq!(m.carry(|s| resolve_lang("", s)).0.unwrap(), "osd");
    m.langs = "heading of the list\n";
    assert_eq!(
        m.carry(|s| resolve_lang("", s)).0.unwrap_err(),
        "no usable tesseract language installed (need at least 'eng')"
    );
}

#[test]
fn layout_is_asked_of_hyprland_then_fcitx() {
    let mut m = machine();
    assert_eq!(m.carry(|s| detect_layout(s)).0.unwrap(), "br");
    m.layout = "no such option\n";
    assert_eq!(m.carry(|s| detect_layout(s)).0.unwrap(), "de");
    m.broken = vec!["hyprctl", "fcitx5-remote"];
    assert_eq!(m.carry(|s| detect_layout(s)).0.unwrap(), "us");
}

#[test]
fn lang_command_tells_layout_and_language() {
    match machine().command(&["lang"]).0 {
        Ok(Output::Lang { layout, lang }) => {
            assert_eq!(layout, "br");
            assert_eq!(lang, "por");
        }
        other => panic!("a language was expected, not {:?}", other),
    }
}

#[test]
fn langs_command_prints_json() {
    assert_eq!(line(machine().command(&["langs"]).0), "[\"eng\",\"por\"]");
    let mut m = machine();
    m.langs = "heading of the list\n";
    assert_eq!(line(m.carry(|s| cmd_langs(s)).0), "[]");
    m.langs = "a\\b\n";
    assert_eq!(line(m.carry(|s| cmd_langs(s)).0), "[\"a\\\\b\"]");
    assert_eq!(langs_line(&vec!["eng".to_string()], None), "[]");
    assert_eq!(langs_line(&vec!["eng".to_string()], Some("x".to_string())), "x");
    assert_eq!(langs_line(&Vec::new(), Some("x".to_string())), "[]");
}

#[test]
fn copy_takes_its_text_from_standard_input_only() {
    let (output, asked) = machine().command(&["copy"]);
    assert!(matches!(output, Ok(Output::Copied)));
    assert!(commands(&asked).is_empty());
    assert!(matches!(asked.last(), Some(Request::Pipe { program, input }) if program == b"/usr/bin/wl-copy" && input == "from stdin\n"));
    let usage = "usage: printf '%s' \"text\" | textify copy";
    let (output, asked) = machine().command(&["copy", "secret"]);
    assert_eq!(output.unwrap_err(), usage);
    assert!(asked.is_empty());
    let mut m = machine();
    m.input = Ok(" \n".to_string());
    assert_eq!(m.command(&["copy"]).0.unwrap_err(), usage);
    m.input = Err("cannot read".to_string());
    assert_eq!(m.command(&["copy"]).0.unwrap_err(), "cannot read");
    let mut m = machine();
    m.broken = vec!["wl-copy"];
    assert_eq!(m.command(&["copy"]).0.unwrap_err(), "wl-copy exited with exit status: 1");
}

#[test]
fn clipboard_failures_are_reported() {
    let cases = [
        (Piping::NotStarted("e".to_string()), "cannot run wl-copy: e"),
        (Piping::NoInput, "wl-copy stdin unavailable"),
        (Piping::NotWritten("e".to_string()), "cannot write to wl-copy: e"),
        (Piping::NotAwaited("e".to_string()), "wl-copy failed: e"),
    ];
    for (piping, message) in cases {
        let replies = [Reply::Dirs(vec![b"/bin".to_vec()]), Reply::Flag(true), Reply::Piped(piping)];
        match textify::engine::copy_to_clipboard("t", &mut Session::new(&replies)) {
            Err(Stop::Fail(m)) => assert_eq!(m, message),
            _ => panic!("a failure was expected"),
        }
    }
}

#[test]
fn unknown_sizes_are_zero() {
    let mut m = machine();
    assert_eq!(m.carry(|s| image_size("a.png", s)).0.unwrap(), (300, 200));
    m.broken = vec!["identify"];
    assert_eq!(m.carry(|s| image_size("a.png", s)).0.unwrap(), (0, 0));
}

#[test]
fn commands_are_dispatched() {
    assert!(matches!(machine().command(&["--version"]).0, Ok(Output::Version)));
    assert!(matches!(machine().command(&["version"]).0, Ok(Output::Version)));
    assert_eq!(
        machine().command(&[]).0.unwrap_err(),
        "usage: textify <region|full|file|copy|lang|langs>"
    );
    assert_eq!(
        machine().command(&["x"]).0.unwrap_err(),
        "unknown command \"x\"; usage: textify <region|full|file|copy|lang|langs>"
    );
    assert_eq!(machine().command(&["full", "--lang"]).0.unwrap_err(), "--lang needs a value");
}

#[test]
fn a_command_resumes_with_one_more_reply() {
    let args = vec!["langs".to_string()];
    let mut replies: Vec<Reply> = Vec::new();
    let first = dispatch(&args, &mut Session::new(&replies));
    assert!(matches!(first, Err(Stop::Ask(Request::SearchPath))));
    replies.push(Reply::Dirs(vec![b"/bin".to_vec()]));
    match dispatch(&args, &mut Session::new(&replies)) {
        Err(Stop::Ask(Request::IsFile { path })) => assert_eq!(path, b"/bin/tesseract"),
        other => panic!("a request was expected, not {:?}", other),
    }
    replies.push(Reply::Flag(true));
    replies.push(exited(true, "eng\n", ""));
    assert_eq!(line(dispatch(&args, &mut Session::new(&replies)).map_err(|_| String::new())), "[\"eng\"]");
    replies.push(Reply::Discarded);
    assert_eq!(line(dispatch(&args, &mut Session::new(&replies)).map_err(|_| String::new())), "[\"eng\"]");
}

#[test]
fn temp_file_uses_a_private_directory_and_cleans_up() {
    let mut m = machine();
    let (file, asked) = m.carry(|s| TempFile::new("test", "tmp", s));
    let file = file.unwrap();
    assert_eq!(shown(&file.dir), "/run/user/1000/textify-test-42-77-0-0");
    assert_eq!(shown(file.path()), "/run/user/1000/textify-test-42-77-0-0/output.tmp");
    assert_eq!(PRIVATE_MODE & 0o777, 0o700);
    match asked.last() {
        Some(Request::CreateDir { path, mode }) => {
            assert_eq!(*path, file.dir);
            assert_eq!(mode & 0o777, 0o700);
        }
        other => panic!("a directory was expected, not {:?}", other),
    }
    let (gone, asked) = m.carry(|s| file.discard(s));
    assert!(gone.is_ok());
    match &asked[0] {
        Request::Discard { path, dir } => {
            assert_eq!(path, file.path());
            assert_eq!(*dir, file.dir);
        }
        other => panic!("a removal was expected, not {:?}", other),
    }
}

#[test]
fn names_that_exist_are_passed_over() {
    let mut m = machine();
    m.creations = vec!["exists", "exists"];
    let (file, asked) = m.carry(|s| TempFile::new("full", "png", s));
    assert_eq!(shown(&file.unwrap().dir), "/run/user/1000/textify-full-42-77-2-2");
    let (made, _) = directories(&asked);
    assert_eq!(made.len(), 3);
    assert!(made[0] != made[1] && made[1] != made[2] && made[0] != made[2]);
}

#[test]
fn places_that_cannot_be_written_to_are_passed_over() {
    let mut m = machine();
    m.creations = vec!["denied"];
    let (file, _) = m.carry(|s| TempFile::new("full", "png", s));
    assert_eq!(shown(&file.unwrap().dir), "/tmp/textify-full-42-77-1-0");
    let mut m = machine();
    m.creations = vec!["denied", "denied"];
    let (file, _) = m.carry(|s| TempFile::new("full", "png", s));
    assert_eq!(file.unwrap_err(), "could not create a unique secure temp directory");
    let mut m = machine();
    m.creations = vec!["exists"; 64];
    let (file, asked) = m.carry(|s| TempFile::new("full", "png", s));
    assert_eq!(file.unwrap_err(), "could not create a unique secure temp directory");
    assert_eq!(directories(&asked).0.len(), 64);
    let mut m = machine();
    m.creations = vec!["disk full"];
    let (file, _) = m.carry(|s| TempFile::new("full", "png", s));
    assert_eq!(
        file.unwrap_err(),
        "cannot create secure temp directory /run/user/1000/textify-full-42-77-0-0: disk full"
    );
}

#[test]
fn temporary_directories_have_two_places_at_most() {
    let mut m = machine();
    let both = vec![b"/run/user/1000".to_vec(), b"/tmp".to_vec()];
    assert_eq!(m.carry(|s| temp_dirs(s)).0.unwrap(), both);
    m.runtime = Some("/tmp/");
    assert_eq!(m.carry(|s| temp_dirs(s)).0.unwrap(), vec![b"/tmp/".to_vec()]);
    m.runtime = Some("/nowhere");
    assert_eq!(m.carry(|s| temp_dirs(s)).0.unwrap(), vec![b"/tmp".to_vec()]);
    m.runtime = None;
    assert_eq!(m.carry(|s| temp_dirs(s)).0.unwrap(), vec![b"/tmp".to_vec()]);
}

#[test]
fn temporary_files_of_one_conversation_differ() {
    let mut m = machine();
    m.creations = vec!["made", "exists", "made"];
    let (files, _) = m.carry(|s| {
        let first = TempFile::new("test", "png", s)?;
        first.discard(s)?;
        let second = TempFile::new("test", "png", s)?;
        let third = TempFile::new("\u{e9}cran-1", "png", s)?;
        Ok([first, second, third])
    });
    let [first, second, third] = files.unwrap();
    assert_eq!(shown(&first.dir), "/run/user/1000/textify-test-42-77-0-0");
    assert_eq!(shown(&second.dir), "/run/user/1000/textify-test-42-77-2-1");
    assert_eq!(shown(&third.dir), "/run/user/1000/textify-\u{e9}cran-1-42-77-3-0");
    assert_ne!(first.path(), second.path());
    assert_ne!(second.path(), third.path());
}

#[test]
fn a_reading_may_leave_the_clipboard_alone() {
    let tools = ["", "slurp", "grim", "identify", "magick", "tesseract", "wl-copy"];
    for tool in tools {
        for region in [false, true] {
            let mut m = machine();
            m.broken = vec![tool];
            let (result, asked) = m.carry(|s| {
                let opts = OcrOptions {
                    region,
                    file: None,
                    lang: String::new(),
                    copy: false,
                    json: false,
                };
                run_ocr(opts, s)
            });
            assert!(!asked.iter().any(|r| matches!(r, Request::Pipe { .. })));
            let (mut made, mut gone) = directories(&asked);
            made.sort();
            gone.sort();
            assert_eq!(made, gone);
            if tool.is_empty() {
                let result = result.unwrap();
                assert_eq!(result.text, "hello world");
                assert!(!result.copied);
            }
        }
    }
}

#[test]
fn only_a_reply_of_another_kind_is_a_mismatch() {
    for words in [vec!["region"], vec!["full", "--json"], vec!["copy"], vec!["lang"]] {
        let args: Vec<String> = words.iter().map(|w| w.to_string()).collect();
        let (output, asked) = machine().command(&words);
        assert!(output.is_ok());
        for i in 0..asked.len() {
            let mut m = machine();
            let mut replies: Vec<Reply> = asked[..i].iter().map(|r| m.reply(r)).collect();
            replies.push(match &asked[i] {
                Request::IsFile { .. } | Request::IsDir { .. } => Reply::Discarded,
                _ => Reply::Flag(true),
            });
            let outcome = dispatch(&args, &mut Session::new(&replies));
            assert!(matches!(outcome, Err(Stop::Mismatch)));
        }
    }
}

/// Makes two files in one conversation, the second below `place`.
fn two_files(ext: &str, place: &str, other: &str) -> (TempFile, TempFile) {
    let mut replies: Vec<Reply> = Vec::new();
    for dir in ["/r", place] {
        replies.push(Reply::Stamp { nonce: 77, pid: 42 });
        replies.push(Reply::Place(Some(dir.as_bytes().to_vec())));
        replies.push(Reply::Flag(true));
        replies.push(Reply::Created(Creation::Made));
    }
    let mut s = Session::new(&replies);
    let first = TempFile::new("p", ext, &mut s).unwrap();
    let second = TempFile::new("p", other, &mut s).unwrap();
    (first, second)
}

#[test]
fn paths_meet_only_where_one_directory_lies_in_the_other() {
    let (first, second) = two_files("z/y", "/r/textify-p-42-77-0-0x", "z/y");
    assert_eq!(shown(&first.dir), "/r/textify-p-42-77-0-0");
    assert_eq!(shown(&second.dir), "/r/textify-p-42-77-0-0x/textify-p-42-77-1-0");
    assert_ne!(first.path(), second.path());
    let place = "/r/textify-p-42-77-0-0/output.z";
    let (first, second) = two_files("z", place, "q");
    assert_ne!(first.path(), second.path());
    let (first, second) = two_files("z/textify-p-42-77-1-0/output.q", place, "q");
    assert_ne!(first.dir, second.dir);
    assert_eq!(first.path(), second.path());
}
