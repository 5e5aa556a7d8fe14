//! The conversation with the machine that the program runs on.
//!
//! Nothing in this library touches a file, a process or the environment. A
//! function that needs something from the outside asks a [`Session`], which
//! holds the replies that have come in so far. As long as there is a reply the
//! function goes on; when the replies run out it stops with the request that
//! is to be answered next. The caller performs that request, adds the reply
//! and starts over: with the same replies everything happens again the same
//! way, one request further.

use vstd::prelude::*;

use crate::text::texts;

verus! {

/// The permission bits of a private directory: all for the owner, none for others.
pub const PRIVATE_MODE: u32 = 0o700;

/// The contents of a list of byte strings.
pub open spec fn contents(list: Seq<Vec<u8>>) -> Seq<Seq<u8>> {
    list.map_values(|p: Vec<u8>| p@)
}

/// Something that only the outside can do.
#[derive(Debug)]
pub enum Request {
    /// Name the directories that are searched for programs, in order.
    SearchPath,
    /// Say whether `path` is a regular file.
    IsFile { path: Vec<u8> },
    /// Say whether `path` is a directory.
    IsDir { path: Vec<u8> },
    /// Name the directory for files of the current login session.
    RuntimeDir,
    /// Tell the time in nanoseconds and the process id.
    Stamp,
    /// Make the directory `path` with the permission bits `mode`; it must not exist yet.
    CreateDir { path: Vec<u8>, mode: u32 },
    /// Remove the file `path`, then the directory `dir` and all that it holds.
    Discard { path: Vec<u8>, dir: Vec<u8> },
    /// Run a program to its end, without a shell, and take its output if `capture` is set.
    Run { program: Vec<u8>, args: Vec<String>, null_stdin: bool, capture: bool },
    /// Run a program to its end without arguments, with `input` as its standard input.
    Pipe { program: Vec<u8>, input: String },
    /// Read the standard input of this process.
    ReadInput,
}

/// What making a directory came to.
#[derive(Debug)]
pub enum Creation {
    /// The directory was made.
    Made,
    /// Something of that name exists already.
    Exists,
    /// The place cannot be written to.
    Denied,
    /// Any other failure, in words.
    Failed(String),
}

/// What running a program came to.
#[derive(Debug)]
pub enum Running {
    /// It could not be started or waited for; the reason, in words.
    Failed(String),
    /// It ran and ended.
    Exited { success: bool, status: String, stdout: Vec<u8>, stderr: Vec<u8> },
}

/// What feeding a program came to.
#[derive(Debug)]
pub enum Piping {
    /// It could not be started; the reason, in words.
    NotStarted(String),
    /// It was started without a standard input.
    NoInput,
    /// Its input could not be written; the reason, in words.
    NotWritten(String),
    /// It could not be waited for; the reason, in words.
    NotAwaited(String),
    /// It ran and ended.
    Exited { success: bool, status: String },
}

/// The answer to a [`Request`].
#[derive(Debug)]
pub enum Reply {
    /// To `SearchPath`.
    Dirs(Vec<Vec<u8>>),
    /// To `IsFile` and `IsDir`.
    Flag(bool),
    /// To `RuntimeDir`.
    Place(Option<Vec<u8>>),
    /// To `Stamp`.
    Stamp { nonce: u128, pid: u32 },
    /// To `CreateDir`.
    Created(Creation),
    /// To `Discard`.
    Discarded,
    /// To `Run`.
    Ran(Running),
    /// To `Pipe`.
    Piped(Piping),
    /// To `ReadInput`.
    Input(Result<String, String>),
}

/// Why a function stopped before its end.
#[derive(Debug)]
pub enum Stop {
    /// It failed; the message says why.
    Fail(String),
    /// It needs the answer to this request.
    Ask(Request),
    /// A reply does not answer the request that it came for.
    Mismatch,
}

/// The contents of a [`Request`].
pub enum RequestView {
    SearchPath,
    IsFile { path: Seq<u8> },
    IsDir { path: Seq<u8> },
    RuntimeDir,
    Stamp,
    CreateDir { path: Seq<u8>, mode: u32 },
    Discard { path: Seq<u8>, dir: Seq<u8> },
    Run { program: Seq<u8>, args: Seq<Seq<char>>, null_stdin: bool, capture: bool },
    Pipe { program: Seq<u8>, input: Seq<char> },
    ReadInput,
}

impl View for Request {
    type V = RequestView;

    open spec fn view(&self) -> RequestView {
        match *self {
            Request::SearchPath => RequestView::SearchPath,
            Request::IsFile { path } => RequestView::IsFile { path: path@ },
            Request::IsDir { path } => RequestView::IsDir { path: path@ },
            Request::RuntimeDir => RequestView::RuntimeDir,
            Request::Stamp => RequestView::Stamp,
            Request::CreateDir { path, mode } => RequestView::CreateDir { path: path@, mode },
            Request::Discard { path, dir } => RequestView::Discard { path: path@, dir: dir@ },
            Request::Run { program, args, null_stdin, capture } => RequestView::Run {
                program: program@,
                args: texts(args@),
                null_stdin,
                capture,
            },
            Request::Pipe { program, input } => RequestView::Pipe {
                program: program@,
                input: input@,
            },
            Request::ReadInput => RequestView::ReadInput,
        }
    }
}

/// The contents of a [`Stop`].
pub enum StopView {
    Fail(Seq<char>),
    Ask(RequestView),
    Mismatch,
}

impl View for Stop {
    type V = StopView;

    open spec fn view(&self) -> StopView {
        match *self {
            Stop::Fail(message) => StopView::Fail(message@),
            Stop::Ask(request) => StopView::Ask(request@),
            Stop::Mismatch => StopView::Mismatch,
        }
    }
}

/// A conversation: all the replies there are, and the requests that they were
/// used for so far, one reply for each. `serial` counts the directories that
/// were asked for.
pub struct Log {
    pub replies: Seq<Reply>,
    pub asked: Seq<RequestView>,
    pub serial: nat,
}

/// A step of a conversation that comes to a `T` or stops.
pub type Step<T> = (Log, Result<T, StopView>);

/// The conversation at its start.
pub open spec fn opening(replies: Seq<Reply>) -> Log {
    Log { replies, asked: Seq::empty(), serial: 0 }
}

/// Puts `request`: the next reply answers it, and without one the step stops there.
pub open spec fn put(log: Log, request: RequestView) -> Step<Reply> {
    if log.asked.len() < log.replies.len() {
        (
            Log {
                replies: log.replies,
                asked: log.asked.push(request),
                serial: log.serial + if request is CreateDir {
                    1nat
                } else {
                    0nat
                },
            },
            Ok(log.replies[log.asked.len() as int]),
        )
    } else {
        (log, Err(StopView::Ask(request)))
    }
}

/// Puts a request that is answered by yes or no.
pub open spec fn put_flag(log: Log, request: RequestView) -> Step<bool> {
    match put(log, request) {
        (next, Ok(Reply::Flag(flag))) => (next, Ok(flag)),
        (next, Ok(_)) => (next, Err(StopView::Mismatch)),
        (next, Err(stop)) => (next, Err(stop)),
    }
}

/// Asks for the directories that are searched for programs.
pub open spec fn put_dirs(log: Log) -> Step<Seq<Seq<u8>>> {
    match put(log, RequestView::SearchPath) {
        (next, Ok(Reply::Dirs(dirs))) => (next, Ok(contents(dirs@))),
        (next, Ok(_)) => (next, Err(StopView::Mismatch)),
        (next, Err(stop)) => (next, Err(stop)),
    }
}

/// Asks for the directory of the login session.
pub open spec fn put_place(log: Log) -> Step<Option<Seq<u8>>> {
    match put(log, RequestView::RuntimeDir) {
        (next, Ok(Reply::Place(Some(path)))) => (next, Ok(Some(path@))),
        (next, Ok(Reply::Place(None))) => (next, Ok(None)),
        (next, Ok(_)) => (next, Err(StopView::Mismatch)),
        (next, Err(stop)) => (next, Err(stop)),
    }
}

/// Asks for the time and the process id.
pub open spec fn put_stamp(log: Log) -> Step<(u128, u32)> {
    match put(log, RequestView::Stamp) {
        (next, Ok(Reply::Stamp { nonce, pid })) => (next, Ok((nonce, pid))),
        (next, Ok(_)) => (next, Err(StopView::Mismatch)),
        (next, Err(stop)) => (next, Err(stop)),
    }
}

/// Asks for a directory that nobody but the owner can enter.
pub open spec fn put_create(log: Log, path: Seq<u8>) -> Step<Creation> {
    match put(log, RequestView::CreateDir { path, mode: PRIVATE_MODE }) {
        (next, Ok(Reply::Created(creation))) => (next, Ok(creation)),
        (next, Ok(_)) => (next, Err(StopView::Mismatch)),
        (next, Err(stop)) => (next, Err(stop)),
    }
}

/// Has a file and its directory removed.
pub open spec fn put_discard(log: Log, path: Seq<u8>, dir: Seq<u8>) -> Step<()> {
    match put(log, RequestView::Discard { path, dir }) {
        (next, Ok(Reply::Discarded)) => (next, Ok(())),
        (next, Ok(_)) => (next, Err(StopView::Mismatch)),
        (next, Err(stop)) => (next, Err(stop)),
    }
}

/// Has a program run.
pub open spec fn put_run(
    log: Log,
    program: Seq<u8>,
    args: Seq<Seq<char>>,
    null_stdin: bool,
    capture: bool,
) -> Step<Running> {
    match put(log, RequestView::Run { program, args, null_stdin, capture }) {
        (next, Ok(Reply::Ran(running))) => (next, Ok(running)),
        (next, Ok(_)) => (next, Err(StopView::Mismatch)),
        (next, Err(stop)) => (next, Err(stop)),
    }
}

/// Has a program fed with `input`.
pub open spec fn put_pipe(log: Log, program: Seq<u8>, input: Seq<char>) -> Step<Piping> {
    match put(log, RequestView::Pipe { program, input }) {
        (next, Ok(Reply::Piped(piping))) => (next, Ok(piping)),
        (next, Ok(_)) => (next, Err(StopView::Mismatch)),
        (next, Err(stop)) => (next, Err(stop)),
    }
}

/// Reads the standard input; the reply is the text, or the reason why there is none.
pub open spec fn put_input(log: Log) -> Step<Seq<char>> {
    match put(log, RequestView::ReadInput) {
        (next, Ok(Reply::Input(Ok(input)))) => (next, Ok(input@)),
        (next, Ok(Reply::Input(Err(reason)))) => (next, Err(StopView::Fail(reason@))),
        (next, Ok(_)) => (next, Err(StopView::Mismatch)),
        (next, Err(stop)) => (next, Err(stop)),
    }
}

/// Whether an executable outcome is the specified one.
pub open spec fn agrees<T: View>(r: Result<T, Stop>, want: Result<T::V, StopView>) -> bool {
    match (r, want) {
        (Ok(a), Ok(b)) => a@ == b,
        (Err(a), Err(b)) => a@ == b,
        _ => false,
    }
}

/// The contents of an executable outcome.
pub open spec fn outcome<T: View>(r: Result<T, Stop>) -> Result<T::V, StopView> {
    match r {
        Ok(value) => Ok(value@),
        Err(stop) => Err(stop@),
    }
}

/// Goes on after a failure, with nothing in place of the result.
pub open spec fn tolerated<T>(step: Step<T>) -> Step<Option<T>> {
    match step {
        (next, Ok(value)) => (next, Ok(Some(value))),
        (next, Err(StopView::Fail(_))) => (next, Ok(None)),
        (next, Err(stop)) => (next, Err(stop)),
    }
}

/// Goes on after a failure, with nothing in place of the result.
pub fn tolerate<T: View>(r: Result<T, Stop>) -> (t: Result<Option<T>, Stop>)
    ensures
        (match (t, r) {
            (Ok(Some(a)), Ok(b)) => a == b,
            (Ok(None), Err(Stop::Fail(_))) => true,
            (Err(a), Err(b)) => a == b && !(b is Fail),
            _ => false,
        }),
{
    match r {
        Ok(value) => Ok(Some(value)),
        Err(Stop::Fail(_)) => Ok(None),
        Err(stop) => Err(stop),
    }
}

/// The replies that have come in so far, and how many of them were used.
pub struct Session<'a> {
    replies: &'a [Reply],
    next: usize,
    serial: u64,
    asked: Ghost<Seq<RequestView>>,
}

impl<'a> View for Session<'a> {
    type V = Log;

    closed spec fn view(&self) -> Log {
        Log { replies: self.replies@, asked: self.asked@, serial: self.serial as nat }
    }
}

impl<'a> Session<'a> {
    #[verifier::type_invariant]
    closed spec fn well_formed(self) -> bool {
        &&& self.next == self.asked@.len()
        &&& self.next <= self.replies@.len()
        &&& self.serial <= self.next
    }

    /// A session at its start, with the replies that have come in so far.
    pub fn new(replies: &'a [Reply]) -> (r: Session<'a>)
        ensures
            r@ == opening(replies@),
    {
        Session { replies, next: 0, serial: 0, asked: Ghost(Seq::empty()) }
    }

    /// How many directories have been asked for.
    pub fn serial(&self) -> (r: u64)
        ensures
            r == self@.serial,
    {
        self.serial
    }

    /// Puts a request and gives its reply.
    pub fn ask(&mut self, request: Request) -> (r: Result<&'a Reply, Stop>)
        ensures
            final(self)@ == put(old(self)@, request@).0,
            (match (r, put(old(self)@, request@).1) {
                (Ok(a), Ok(b)) => *a == b,
                (Err(a), Err(b)) => a@ == b,
                _ => false,
            }),
    {
        proof {
            use_type_invariant(&*self);
        }
        if self.next < self.replies.len() {
            let serial: u64 = match &request {
                Request::CreateDir { .. } => self.serial + 1,
                _ => self.serial,
            };
            let reply: &'a Reply = &self.replies[self.next];
            let asked: Ghost<Seq<RequestView>> = Ghost(self.asked@.push(request@));
            *self = Session { replies: self.replies, next: self.next + 1, serial, asked };
            Ok(reply)
        } else {
            Err(Stop::Ask(request))
        }
    }

    /// Puts a request that is answered by yes or no.
    pub fn ask_flag(&mut self, request: Request) -> (r: Result<bool, Stop>)
        ensures
            final(self)@ == put_flag(old(self)@, request@).0,
            (match (r, put_flag(old(self)@, request@).1) {
                (Ok(a), Ok(b)) => a == b,
                (Err(a), Err(b)) => a@ == b,
                _ => false,
            }),
    {
        match self.ask(request)? {
            Reply::Flag(flag) => Ok(*flag),
            _ => Err(Stop::Mismatch),
        }
    }

    /// Asks for the directories that are searched for programs.
    pub fn ask_dirs(&mut self) -> (r: Result<&'a Vec<Vec<u8>>, Stop>)
        ensures
            final(self)@ == put_dirs(old(self)@).0,
            (match (r, put_dirs(old(self)@).1) {
                (Ok(a), Ok(b)) => contents(a@) == b,
                (Err(a), Err(b)) => a@ == b,
                _ => false,
            }),
    {
        match self.ask(Request::SearchPath)? {
            Reply::Dirs(dirs) => Ok(dirs),
            _ => Err(Stop::Mismatch),
        }
    }

    /// Asks for the directory of the login session.
    pub fn ask_place(&mut self) -> (r: Result<Option<&'a Vec<u8>>, Stop>)
        ensures
            final(self)@ == put_place(old(self)@).0,
            (match (r, put_place(old(self)@).1) {
                (Ok(a), Ok(b)) => match (a, b) {
                    (Some(p), Some(q)) => p@ == q,
                    (None, None) => true,
                    _ => false,
                },
                (Err(a), Err(b)) => a@ == b,
                _ => false,
            }),
    {
        match self.ask(Request::RuntimeDir)? {
            Reply::Place(Some(path)) => Ok(Some(path)),
            Reply::Place(None) => Ok(None),
            _ => Err(Stop::Mismatch),
        }
    }

    /// Asks for the time and the process id.
    pub fn ask_stamp(&mut self) -> (r: Result<(u128, u32), Stop>)
        ensures
            final(self)@ == put_stamp(old(self)@).0,
            (match (r, put_stamp(old(self)@).1) {
                (Ok(a), Ok(b)) => a == b,
                (Err(a), Err(b)) => a@ == b,
                _ => false,
            }),
    {
        match self.ask(Request::Stamp)? {
            Reply::Stamp { nonce, pid } => Ok((*nonce, *pid)),
            _ => Err(Stop::Mismatch),
        }
    }

    /// Asks for a directory that nobody but the owner can enter.
    pub fn ask_create(&mut self, path: Vec<u8>) -> (r: Result<&'a Creation, Stop>)
        ensures
            final(self)@ == put_create(old(self)@, path@).0,
            (match (r, put_create(old(self)@, path@).1) {
                (Ok(a), Ok(b)) => *a == b,
                (Err(a), Err(b)) => a@ == b,
                _ => false,
            }),
    {
        match self.ask(Request::CreateDir { path, mode: PRIVATE_MODE })? {
            Reply::Created(creation) => Ok(creation),
            _ => Err(Stop::Mismatch),
        }
    }

    /// Has a file and its directory removed.
    pub fn ask_discard(&mut self, path: Vec<u8>, dir: Vec<u8>) -> (r: Result<(), Stop>)
        ensures
            final(self)@ == put_discard(old(self)@, path@, dir@).0,
            (match (r, put_discard(old(self)@, path@, dir@).1) {
                (Ok(a), Ok(b)) => true,
                (Err(a), Err(b)) => a@ == b,
                _ => false,
            }),
    {
        match self.ask(Request::Discard { path, dir })? {
            Reply::Discarded => Ok(()),
            _ => Err(Stop::Mismatch),
        }
    }

    /// Has a program run.
    pub fn ask_run(&mut self,
        program: Vec<u8>,
        args: Vec<String>,
        null_stdin: bool,
        capture: bool,
    ) -> (r: Result<&'a Running, Stop>)
        ensures
            final(self)@ == put_run(old(self)@, program@, texts(args@), null_stdin, capture).0,
            (match (r, put_run(old(self)@, program@, texts(args@), null_stdin, capture).1) {
                (Ok(a), Ok(b)) => *a == b,
                (Err(a), Err(b)) => a@ == b,
                _ => false,
            }),
    {
        match self.ask(Request::Run { program, args, null_stdin, capture })? {
            Reply::Ran(running) => Ok(running),
            _ => Err(Stop::Mismatch),
        }
    }

    /// Has a program fed with `input`.
    pub fn ask_pipe(&mut self, program: Vec<u8>, input: String) -> (r: Result<&'a Piping, Stop>)
        ensures
            final(self)@ == put_pipe(old(self)@, program@, input@).0,
            (match (r, put_pipe(old(self)@, program@, input@).1) {
                (Ok(a), Ok(b)) => *a == b,
                (Err(a), Err(b)) => a@ == b,
                _ => false,
            }),
    {
        match self.ask(Request::Pipe { program, input })? {
            Reply::Piped(piping) => Ok(piping),
            _ => Err(Stop::Mismatch),
        }
    }

    /// Reads the standard input.
    pub fn ask_input(&mut self) -> (r: Result<String, Stop>)
        ensures
            final(self)@ == put_input(old(self)@).0,
            (match (r, put_input(old(self)@).1) {
                (Ok(a), Ok(b)) => a@ == b,
                (Err(a), Err(b)) => a@ == b,
                _ => false,
            }),
    {
        match self.ask(Request::ReadInput)? {
            Reply::Input(Ok(input)) => Ok(input.clone()),
            Reply::Input(Err(reason)) => Err(Stop::Fail(reason.clone())),
            _ => Err(Stop::Mismatch),
        }
    }
}

} // verus!
