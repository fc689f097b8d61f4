//! The shell: splitting a command line into words and deciding which
//! command it names, the line editor with its history, and the numbers
//! that commands print.  The kernel runs the command that comes out and
//! prints the text.

use vstd::prelude::*;
use crate::text::str_eq;
use crate::keys::Key;
use crate::initrd::str_from_utf8;
use vstd::utf8::{valid_utf8, decode_utf8};

verus! {

/// `c` has the Unicode `White_Space` property, which is what the standard
/// library's `char::is_whitespace` tests.
pub open spec fn is_ws(c: char) -> bool {
    ||| ('\u{9}' <= c && c <= '\u{d}')
    ||| c == ' '
    ||| c == '\u{85}'
    ||| c == '\u{a0}'
    ||| c == '\u{1680}'
    ||| ('\u{2000}' <= c && c <= '\u{200a}')
    ||| c == '\u{2028}'
    ||| c == '\u{2029}'
    ||| c == '\u{202f}'
    ||| c == '\u{205f}'
    ||| c == '\u{3000}'
}

/// Whether `c` is white space (Unicode `White_Space`).
pub fn is_whitespace(c: char) -> (r: bool)
    ensures
        r == is_ws(c),
{
    ('\u{9}' <= c && c <= '\u{d}') || c == ' ' || c == '\u{85}' || c == '\u{a0}' || c == '\u{1680}'
        || ('\u{2000}' <= c && c <= '\u{200a}') || c == '\u{2028}' || c == '\u{2029}'
        || c == '\u{202f}' || c == '\u{205f}' || c == '\u{3000}'
}

/// Length of the leading run of non-white-space characters.
pub open spec fn word_len(s: Seq<char>) -> nat
    decreases s.len(),
{
    if s.len() == 0 || is_ws(s[0]) {
        0
    } else {
        1 + word_len(s.drop_first())
    }
}

pub proof fn lemma_word_len(s: Seq<char>)
    ensures
        word_len(s) <= s.len(),
        forall|k: int| 0 <= k < word_len(s) ==> !is_ws(#[trigger] s[k]),
        word_len(s) < s.len() ==> is_ws(s[word_len(s) as int]),
    decreases s.len(),
{
    if s.len() > 0 && !is_ws(s[0]) {
        lemma_word_len(s.drop_first());
        assert forall|k: int| 0 <= k < word_len(s) implies !is_ws(#[trigger] s[k]) by {
            if k > 0 {
                assert(s[k] == s.drop_first()[k - 1]);
            }
        }
    }
}

proof fn lemma_word_len_at(s: Seq<char>, j: int)
    requires
        0 <= j <= s.len(),
        forall|k: int| 0 <= k < j ==> !is_ws(#[trigger] s[k]),
        j < s.len() ==> is_ws(s[j]),
    ensures
        word_len(s) == j,
{
    lemma_word_len(s);
    if word_len(s) < j {
        assert(!is_ws(s[word_len(s) as int]));
    } else if word_len(s) > j {
        assert(!is_ws(s[j]));
    }
}

/// The white-space separated words of `s`, in order.
pub open spec fn words(s: Seq<char>) -> Seq<Seq<char>>
    decreases s.len(),
{
    if s.len() == 0 {
        Seq::empty()
    } else if is_ws(s[0]) {
        words(s.drop_first())
    } else {
        proof { lemma_word_len(s); }
        seq![s.take(word_len(s) as int)] + words(s.skip(word_len(s) as int))
    }
}

/// The words joined with single spaces.
pub open spec fn join(ws: Seq<Seq<char>>) -> Seq<char>
    decreases ws.len(),
{
    if ws.len() == 0 {
        Seq::empty()
    } else if ws.len() == 1 {
        ws[0]
    } else {
        join(ws.drop_last()) + seq![' '] + ws.last()
    }
}

/// Splits `s` at white space into its words.
pub fn split_whitespace<'a>(s: &'a str) -> (r: Vec<&'a str>)
    ensures
        r@.len() == words(s@).len(),
        forall|i: int| 0 <= i < r@.len() ==> (#[trigger] r@[i])@ == words(s@)[i],
{
    let n = s.unicode_len();
    let mut out: Vec<&'a str> = Vec::new();
    let mut i: usize = 0;
    let ghost done: Seq<Seq<char>> = Seq::empty();
    assert(s@.skip(0) =~= s@);
    assert(done + words(s@) =~= words(s@));
    while i < n
        invariant
            n == s@.len(),
            i <= n,
            out@.len() == done.len(),
            forall|k: int| 0 <= k < out@.len() ==> (#[trigger] out@[k])@ == done[k],
            words(s@) == done + words(s@.skip(i as int)),
        decreases n - i,
    {
        if is_whitespace(s.get_char(i)) {
            proof {
                assert(s@.skip(i as int).drop_first() =~= s@.skip(i + 1));
            }
            i = i + 1;
        } else {
            let start = i;
            while i < n && !is_whitespace(s.get_char(i))
                invariant
                    n == s@.len(),
                    start < n,
                    start <= i <= n,
                    forall|k: int| start <= k < i ==> !is_ws(#[trigger] s@[k]),
                decreases n - i,
            {
                i = i + 1;
            }
            let w = s.substring_char(start, i);
            proof {
                let t = s@.skip(start as int);
                assert forall|k: int| 0 <= k < i - start implies !is_ws(#[trigger] t[k]) by {
                    assert(t[k] == s@[start + k]);
                }
                if i < n {
                    assert(t[i - start] == s@[i as int]);
                }
                lemma_word_len_at(t, i - start);
                assert(t.take(i - start) =~= w@);
                assert(t.skip(i - start) =~= s@.skip(i as int));
                assert(words(s@.skip(start as int)) == seq![w@] + words(s@.skip(i as int)));
                assert(done + words(s@.skip(start as int)) =~= done.push(w@) + words(s@.skip(i as int)));
                done = done.push(w@);
            }
            out.push(w);
        }
    }
    proof {
        assert(s@.skip(n as int) =~= Seq::<char>::empty());
        assert(done + Seq::<Seq<char>>::empty() =~= done);
    }
    out
}

/// `String::push`: appends `c`.  Claimed: the characters after are the
/// characters before followed by `c`.
#[verifier::external_body]
fn string_push(s: &mut String, c: char)
    ensures
        final(s)@ == old(s)@.push(c),
{
    s.push(c)
}

/// `String::pop`: removes the last character.  Claimed: on an empty string
/// nothing changes and `None` comes back; otherwise the last character
/// comes back and is gone from the string.
#[verifier::external_body]
fn string_pop(s: &mut String) -> (r: Option<char>)
    ensures
        old(s)@.len() == 0 ==> r is None && final(s)@ == old(s)@,
        old(s)@.len() > 0 ==> r == Some(old(s)@.last()) && final(s)@ == old(s)@.drop_last(),
{
    s.pop()
}

/// The words from index `from` on, joined with single spaces.
pub fn join_from(ws: &Vec<&str>, from: usize) -> (r: String)
    requires
        from <= ws@.len(),
    ensures
        r@ == join(Seq::new((ws@.len() - from) as nat, |i: int| ws@[from + i]@)),
{
    let ghost target = Seq::new((ws@.len() - from) as nat, |i: int| ws@[from + i]@);
    let mut out = String::new();
    if from == ws.len() {
        assert(target =~= Seq::<Seq<char>>::empty());
        return out;
    }
    out.append(ws[from]);
    let mut i: usize = from + 1;
    proof {
        assert(target.take(1).drop_last() =~= Seq::<Seq<char>>::empty());
        assert(join(target.take(1)) == target.take(1)[0]);
    }
    while i < ws.len()
        invariant
            from < i <= ws@.len(),
            target == Seq::new((ws@.len() - from) as nat, |k: int| ws@[from + k]@),
            out@ == join(target.take(i - from)),
        decreases ws.len() - i,
    {
        let sp = " ";
        proof { reveal_strlit(" "); }
        out.append(sp);
        out.append(ws[i]);
        proof {
            let t = target.take(i + 1 - from);
            assert(t.drop_last() =~= target.take(i - from));
            assert(t.last() == ws@[i as int]@);
            assert(sp@ =~= seq![' ']);
        }
        i = i + 1;
    }
    assert(target.take(i - from) =~= target);
    out
}

/// What a command line asks for.
pub enum Command {
    /// The line holds no word.
    Empty,
    Help,
    Doom,
    Echo(String),
    Uptime,
    Panic(String),
    Int3,
    Initrd,
    Ls,
    Cat(String),
    Write { file: String, data: String },
    /// `write` with fewer than two arguments.
    WriteUsage,
    Rm(String),
    Ps,
    SleepTest,
    Clear,
    FbTest,
    Unknown(String),
}

/// A command as a value.
pub enum CommandView {
    Empty,
    Help,
    Doom,
    Echo(Seq<char>),
    Uptime,
    Panic(Seq<char>),
    Int3,
    Initrd,
    Ls,
    Cat(Seq<char>),
    Write { file: Seq<char>, data: Seq<char> },
    WriteUsage,
    Rm(Seq<char>),
    Ps,
    SleepTest,
    Clear,
    FbTest,
    Unknown(Seq<char>),
}

impl Command {
    pub open spec fn view(&self) -> CommandView {
        match self {
            Command::Empty => CommandView::Empty,
            Command::Help => CommandView::Help,
            Command::Doom => CommandView::Doom,
            Command::Echo(s) => CommandView::Echo(s@),
            Command::Uptime => CommandView::Uptime,
            Command::Panic(s) => CommandView::Panic(s@),
            Command::Int3 => CommandView::Int3,
            Command::Initrd => CommandView::Initrd,
            Command::Ls => CommandView::Ls,
            Command::Cat(s) => CommandView::Cat(s@),
            Command::Write { file, data } => CommandView::Write { file: file@, data: data@ },
            Command::WriteUsage => CommandView::WriteUsage,
            Command::Rm(s) => CommandView::Rm(s@),
            Command::Ps => CommandView::Ps,
            Command::SleepTest => CommandView::SleepTest,
            Command::Clear => CommandView::Clear,
            Command::FbTest => CommandView::FbTest,
            Command::Unknown(s) => CommandView::Unknown(s@),
        }
    }
}

/// The command that the words of a line name.  The first word picks the
/// command; most commands take the remaining words joined by single spaces.
pub open spec fn command_of(ws: Seq<Seq<char>>) -> CommandView {
    if ws.len() == 0 {
        CommandView::Empty
    } else {
        let c = ws[0];
        let rest = join(ws.skip(1));
        if c == "help"@ {
            CommandView::Help
        } else if c == "doom"@ {
            CommandView::Doom
        } else if c == "echo"@ {
            CommandView::Echo(rest)
        } else if c == "uptime"@ {
            CommandView::Uptime
        } else if c == "panic"@ {
            CommandView::Panic(rest)
        } else if c == "int3"@ {
            CommandView::Int3
        } else if c == "initrd"@ {
            CommandView::Initrd
        } else if c == "ls"@ {
            CommandView::Ls
        } else if c == "cat"@ {
            CommandView::Cat(rest)
        } else if c == "write"@ {
            if ws.len() < 3 {
                CommandView::WriteUsage
            } else {
                CommandView::Write { file: ws[1], data: join(ws.skip(2)) }
            }
        } else if c == "rm"@ {
            CommandView::Rm(rest)
        } else if c == "ps"@ {
            CommandView::Ps
        } else if c == "sleeptest"@ {
            CommandView::SleepTest
        } else if c == "clear"@ {
            CommandView::Clear
        } else if c == "fbtest"@ {
            CommandView::FbTest
        } else {
            CommandView::Unknown(c)
        }
    }
}

/// Decides which command the line `line` asks for.
pub fn parse_command(line: &str) -> (r: Command)
    ensures
        r@ == command_of(words(line@)),
{
    let ws = split_whitespace(line);
    let ghost sw = words(line@);
    if ws.len() == 0 {
        return Command::Empty;
    }
    let c = ws[0];
    proof {
        assert(Seq::new((ws@.len() - 1) as nat, |i: int| ws@[1 + i]@) =~= sw.skip(1));
        if ws@.len() >= 2 {
            assert(Seq::new((ws@.len() - 2) as nat, |i: int| ws@[2 + i]@) =~= sw.skip(2));
        }
    }
    if str_eq(c, "help") {
        Command::Help
    } else if str_eq(c, "doom") {
        Command::Doom
    } else if str_eq(c, "echo") {
        Command::Echo(join_from(&ws, 1))
    } else if str_eq(c, "uptime") {
        Command::Uptime
    } else if str_eq(c, "panic") {
        Command::Panic(join_from(&ws, 1))
    } else if str_eq(c, "int3") {
        Command::Int3
    } else if str_eq(c, "initrd") {
        Command::Initrd
    } else if str_eq(c, "ls") {
        Command::Ls
    } else if str_eq(c, "cat") {
        Command::Cat(join_from(&ws, 1))
    } else if str_eq(c, "write") {
        if ws.len() < 3 {
            Command::WriteUsage
        } else {
            Command::Write { file: String::from_str(ws[1]), data: join_from(&ws, 2) }
        }
    } else if str_eq(c, "rm") {
        Command::Rm(join_from(&ws, 1))
    } else if str_eq(c, "ps") {
        Command::Ps
    } else if str_eq(c, "sleeptest") {
        Command::SleepTest
    } else if str_eq(c, "clear") {
        Command::Clear
    } else if str_eq(c, "fbtest") {
        Command::FbTest
    } else {
        Command::Unknown(String::from_str(c))
    }
}

/// Hours, minutes and seconds of uptime after `ticks` timer ticks, the way
/// the `uptime` command prints them: whole hours, then minutes and seconds
/// within the hour and minute.
pub fn uptime(ticks: u64) -> (r: (u64, u64, u64))
    ensures
        r.0 == ticks / 100 / 60 / 60,
        r.1 == ticks / 100 / 60 % 60,
        r.2 == ticks / 100 % 60,
{
    let seconds = ticks / crate::tasks::TICK_HZ;
    let minutes = seconds / 60;
    let hours = minutes / 60;
    (hours, minutes % 60, seconds % 60)
}

/// What `cat` shows for a file's contents: the text they decode to as
/// UTF-8, or a placeholder when they are not valid UTF-8.
pub fn file_text(data: &[u8]) -> (r: &str)
    ensures
        valid_utf8(data@) ==> r@ == decode_utf8(data@),
        !valid_utf8(data@) ==> r@ == "<invalid utf-8>"@,
{
    match str_from_utf8(data) {
        Some(s) => s,
        None => "<invalid utf-8>",
    }
}

/// The half-second period that timer tick `ticks` falls in.
pub open spec fn blink_period(ticks: u64) -> int {
    (ticks / (crate::tasks::TICK_HZ / 2)) as int
}

/// Whether the shell blinks the cursor at tick `ticks`, having last blinked
/// in period `last`: it blinks once per half second, on entering a new
/// period, and then remembers that period.
pub fn cursor_blink(ticks: u64, last: u64) -> (r: Option<u64>)
    ensures
        blink_period(ticks) != last ==> r == Some(blink_period(ticks) as u64),
        blink_period(ticks) == last ==> r is None,
{
    let period = ticks / (crate::tasks::TICK_HZ / 2);
    if period != last {
        Some(period)
    } else {
        None
    }
}

/// The prompt the shell prints before each line.
pub const PROMPT: &'static str = "catos> ";

/// What the terminal shows to erase one character: back, blank, back.
pub open spec fn erase(n: nat) -> Seq<char>
    decreases n,
{
    if n == 0 {
        Seq::empty()
    } else {
        erase((n - 1) as nat) + "\x08 \x08"@
    }
}

/// Number of bytes that `s` takes in UTF-8, as `str::len` reports it.
pub open spec fn utf8_len(s: Seq<char>) -> nat {
    (vstd::utf8::encode_utf8(s).len() as usize) as nat
}

/// The line being edited, the lines entered so far, and the position in
/// that history that Up and Down move through.
pub struct LineEditor {
    line: String,
    history: Vec<String>,
    history_index: usize,
}

/// The editor as a value.
pub struct EditorView {
    pub line: Seq<char>,
    pub history: Seq<Seq<char>>,
    pub index: nat,
}

/// What one key press asks of the terminal: text to print, then a command
/// line to run (on Enter), then more text to print.
pub struct KeyOutcome {
    pub before: String,
    pub run: Option<String>,
    pub after: String,
}

/// A key outcome as a value.
pub struct OutcomeView {
    pub before: Seq<char>,
    pub run: Option<Seq<char>>,
    pub after: Seq<char>,
}

impl KeyOutcome {
    pub open spec fn view(&self) -> OutcomeView {
        OutcomeView {
            before: self.before@,
            run: match self.run {
                Some(r) => Some(r@),
                None => None,
            },
            after: self.after@,
        }
    }
}

/// Nothing to print and nothing to run.
pub open spec fn quiet() -> OutcomeView {
    OutcomeView { before: Seq::empty(), run: None, after: Seq::empty() }
}

/// The editor and the outcome after `key` is pressed in state `e`.
pub open spec fn editor_step(e: EditorView, key: Key) -> (EditorView, OutcomeView) {
    match key {
        Key::Char(c) => {
            if c == '\n' {
                let h = e.history.push(e.line);
                (
                    EditorView { line: Seq::empty(), history: h, index: h.len() },
                    OutcomeView { before: seq!['\n'], run: Some(e.line), after: PROMPT@ },
                )
            } else if c == '\x08' {
                if e.line.len() > 0 {
                    (EditorView { line: e.line.drop_last(), ..e }, OutcomeView { before: erase(1), ..quiet() })
                } else {
                    (e, quiet())
                }
            } else if c == '\x03' {
                (
                    EditorView { line: Seq::empty(), ..e },
                    OutcomeView { before: "^C\n"@ + PROMPT@, ..quiet() },
                )
            } else {
                (EditorView { line: e.line.push(c), ..e }, OutcomeView { before: seq![c], ..quiet() })
            }
        },
        Key::Up => {
            let i: nat = if e.index > 0 { (e.index - 1) as nat } else { e.index };
            if i < e.history.len() {
                (
                    EditorView { line: e.history[i as int], index: i, ..e },
                    OutcomeView { before: erase(utf8_len(e.line)) + e.history[i as int], ..quiet() },
                )
            } else {
                (EditorView { index: i, ..e }, quiet())
            }
        },
        Key::Down => {
            let i: nat = if e.history.len() > 0 && e.index < e.history.len() - 1 {
                e.index + 1
            } else {
                e.history.len()
            };
            if i < e.history.len() {
                (
                    EditorView { line: e.history[i as int], index: i, ..e },
                    OutcomeView { before: erase(utf8_len(e.line)) + e.history[i as int], ..quiet() },
                )
            } else {
                (
                    EditorView { line: Seq::empty(), index: i, ..e },
                    OutcomeView { before: erase(utf8_len(e.line)), ..quiet() },
                )
            }
        },
        _ => (e, quiet()),
    }
}

impl LineEditor {
    pub closed spec fn view(&self) -> EditorView {
        EditorView {
            line: self.line@,
            history: Seq::new(self.history@.len(), |i: int| self.history@[i]@),
            index: self.history_index as nat,
        }
    }

    /// The history position never passes the end of the history.
    pub open spec fn wf(&self) -> bool {
        self@.index <= self@.history.len()
    }

    /// An empty line and no history.
    pub fn new() -> (r: Self)
        ensures
            r.wf(),
            r@.line == Seq::<char>::empty(),
            r@.history == Seq::<Seq<char>>::empty(),
            r@.index == 0,
    {
        let r = LineEditor { line: String::new(), history: Vec::new(), history_index: 0 };
        assert(r@.history =~= Seq::<Seq<char>>::empty());
        r
    }

    /// The line being edited.
    pub fn line(&self) -> (r: &str)
        ensures
            r@ == self@.line,
    {
        self.line.as_str()
    }

    /// Number of lines entered so far.
    pub fn history_len(&self) -> (n: usize)
        ensures
            n == self@.history.len(),
    {
        self.history.len()
    }

    /// The position in the history that Up and Down move through.
    pub fn history_index(&self) -> (n: usize)
        ensures
            n == self@.index,
    {
        self.history_index
    }

    fn erase_line(&self, out: &mut String)
        ensures
            final(out)@ == old(out)@ + erase(utf8_len(self@.line)),
    {
        let n = self.line.as_str().len();
        let mut k: usize = 0;
        assert(old(out)@ + erase(0) =~= old(out)@);
        while k < n
            invariant
                k <= n,
                n == utf8_len(self@.line),
                out@ == old(out)@ + erase(k as nat),
            decreases n - k,
        {
            out.append("\x08 \x08");
            assert(out@ =~= old(out)@ + erase((k + 1) as nat));
            k = k + 1;
        }
    }

    /// Handles one key press and says what to print and run.
    pub fn handle_key(&mut self, key: Key) -> (r: KeyOutcome)
        requires
            old(self).wf(),
        ensures
            final(self).wf(),
            (final(self)@, r@) == editor_step(old(self)@, key),
    {
        let ghost e = self@;
        match key {
            Key::Char(c) => {
                if c == '\n' {
                    let entered = self.line.clone();
                    self.history.push(self.line.clone());
                    self.history_index = self.history.len();
                    self.line = String::new();
                    let mut before = String::new();
                    string_push(&mut before, '\n');
                    assert(self@.history =~= e.history.push(e.line));
                    assert(before@ =~= seq!['\n']);
                    KeyOutcome { before, run: Some(entered), after: String::from_str(PROMPT) }
                } else if c == '\x08' {
                    match string_pop(&mut self.line) {
                        Some(_) => {
                            let mut before = String::new();
                            before.append("\x08 \x08");
                            assert(erase(0) == Seq::<char>::empty());
                            assert(before@ =~= erase(1));
                            KeyOutcome { before, run: None, after: String::new() }
                        },
                        None => KeyOutcome { before: String::new(), run: None, after: String::new() },
                    }
                } else if c == '\x03' {
                    self.line = String::new();
                    let mut before = String::new();
                    before.append("^C\n");
                    before.append(PROMPT);
                    KeyOutcome { before, run: None, after: String::new() }
                } else {
                    string_push(&mut self.line, c);
                    let mut before = String::new();
                    string_push(&mut before, c);
                    assert(before@ =~= seq![c]);
                    KeyOutcome { before, run: None, after: String::new() }
                }
            },
            Key::Up => {
                if self.history_index > 0 {
                    self.history_index = self.history_index - 1;
                }
                if self.history_index < self.history.len() {
                    let mut before = String::new();
                    self.erase_line(&mut before);
                    self.line = self.history[self.history_index].clone();
                    before.append(self.line.as_str());
                    KeyOutcome { before, run: None, after: String::new() }
                } else {
                    KeyOutcome { before: String::new(), run: None, after: String::new() }
                }
            },
            Key::Down => {
                if self.history.len() > 0 && self.history_index < self.history.len() - 1 {
                    self.history_index = self.history_index + 1;
                } else {
                    self.history_index = self.history.len();
                }
                let mut before = String::new();
                self.erase_line(&mut before);
                if self.history_index < self.history.len() {
                    self.line = self.history[self.history_index].clone();
                    before.append(self.line.as_str());
                } else {
                    self.line = String::new();
                }
                KeyOutcome { before, run: None, after: String::new() }
            },
            _ => KeyOutcome { before: String::new(), run: None, after: String::new() },
        }
    }
}

/// Pressing Up right after entering a line brings that line back.
pub proof fn law_up_recalls_entered_line(e: EditorView)
    ensures
        ({
            let (e1, _) = editor_step(e, Key::Char('\n'));
            let (e2, _) = editor_step(e1, Key::Up);
            e2.line == e.line && e2.index == e.history.len()
        }),
{
}

/// Backspace right after typing a character takes it away again.
pub proof fn law_backspace_undoes_typing(e: EditorView, c: char)
    requires
        c != '\n',
        c != '\x08',
        c != '\x03',
    ensures
        ({
            let (e1, _) = editor_step(e, Key::Char(c));
            let (e2, o2) = editor_step(e1, Key::Char('\x08'));
            e2 == e && o2.run is None
        }),
{
    let (e1, _) = editor_step(e, Key::Char(c));
    assert(e1.line.drop_last() =~= e.line);
}

/// Only Enter runs a command, and it runs the line as typed.
pub proof fn law_only_enter_runs(e: EditorView, k: Key)
    ensures
        editor_step(e, k).1.run is Some <==> k == Key::Char('\n'),
        k == Key::Char('\n') ==> editor_step(e, k).1.run == Some(e.line),
{
}

/// The history position never passes the end of the history.
pub proof fn law_index_in_history(e: EditorView, k: Key)
    requires
        e.index <= e.history.len(),
    ensures
        editor_step(e, k).0.index <= editor_step(e, k).0.history.len(),
{
}

/// White space before a command line changes nothing about its words.
pub proof fn law_leading_space_ignored(s: Seq<char>, c: char)
    requires
        is_ws(c),
    ensures
        words(seq![c] + s) == words(s),
{
    assert((seq![c] + s).drop_first() =~= s);
}

/// Left and Right do nothing to the command line: the line, the history
/// and the history position stay as they are, nothing is printed and
/// nothing runs.
pub proof fn law_left_right_change_nothing(e: EditorView)
    ensures
        editor_step(e, Key::Left).0 == e,
        editor_step(e, Key::Right).0 == e,
        editor_step(e, Key::Left).1 == (OutcomeView { before: Seq::empty(), run: None, after: Seq::empty() }),
        editor_step(e, Key::Right).1 == (OutcomeView { before: Seq::empty(), run: None, after: Seq::empty() }),
{
}

} // verus!
