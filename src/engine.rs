use vstd::prelude::*;
use crate::error::EditError;
use crate::parser::{Command, Range, parse_command, parsed};

verus! {

/// The command that asked for text lines.
#[derive(Debug, Clone, Copy, PartialEq, Eq, Structural)]
pub enum Mode {
    Insert,
    Change,
}

/// What the caller has to do after a command.
#[derive(Debug)]
pub enum Effect {
    /// Nothing; read the next command.
    Continue,
    /// Show the whole buffer.
    Print,
    /// Show the current line number.
    ShowLine(usize),
    /// Warn that there are changes not written; the editor did not quit.
    UnsavedWarning,
    /// Read text lines and hand each to the editor, up to a line holding a lone `.`.
    RequestMoreLines(Mode),
    /// Write the buffer's contents to this file, then report how it went.
    WriteFile(String),
    /// End the session with this exit code.
    Exit(i32),
}

/// Text lines being collected for an insert or a change of `[lo, hi)`.
pub struct EntryView {
    pub mode: Mode,
    pub lo: int,
    pub hi: int,
    pub lines: Seq<Seq<char>>,
}

/// The editor as a mathematical value.
pub struct EditorView {
    pub lines: Seq<Seq<char>>,
    pub current: int,
    pub saved: bool,
    pub filename: Option<Seq<char>>,
    pub entry: Option<EntryView>,
    /// A write handed out and not yet reported: the name given with it, and whether to quit.
    pub pending: Option<(Option<Seq<char>>, bool)>,
}

/// The characters of an optional string.
pub open spec fn opt_view(o: Option<String>) -> Option<Seq<char>> {
    match o {
        Some(s) => Some(s@),
        None => None,
    }
}

/// The characters of each line.
pub open spec fn lines_view(v: Seq<String>) -> Seq<Seq<char>> {
    v.map_values(|l: String| l@)
}

/// `b` with `[lo, hi)` replaced by `block`.
pub open spec fn splice(b: Seq<Seq<char>>, lo: int, hi: int, block: Seq<Seq<char>>) -> Seq<Seq<char>> {
    b.subrange(0, lo) + block + b.subrange(hi, b.len() as int)
}

/// Concrete half-open slice `[lo, hi)` that an address denotes, if it lies in the buffer.
pub open spec fn resolve_spec(r: Range, len: int, cur: int) -> Option<(int, int)> {
    let (lo, hi) = match r {
        Range::Single(n) => (n - 1, n as int),
        Range::Bounded(a, b) => (a - 1, b as int),
        Range::Start(a) => (a - 1, len),
        Range::End(b) => (0, b as int),
        Range::Current => (cur - 1, cur),
    };
    if 0 <= lo <= hi <= len {
        Some((lo, hi))
    } else {
        None
    }
}

/// The cursor after `[lo, hi)` is replaced by `k` lines: it moves by the change
/// in line count when the edit starts before it, and never below zero.
pub open spec fn cursor_after(cur: int, lo: int, hi: int, k: int) -> int {
    if lo < cur {
        if cur - (hi - lo) + k < 0 {
            0
        } else {
            cur - (hi - lo) + k
        }
    } else {
        cur
    }
}

/// Where inserted lines go: just before the current line, or at the top.
pub open spec fn insert_point(cur: int) -> int {
    if cur == 0 {
        0
    } else {
        cur - 1
    }
}

/// A line that ends text entry.
pub open spec fn sentinel(l: Seq<char>) -> bool {
    l == "."@ || l == ".\n"@
}

impl EditorView {
    /// The cursor lies within the buffer, a slice being changed lies within it,
    /// and lines being inserted go at the insertion point.
    pub open spec fn wf(self) -> bool {
        &&& 0 <= self.current <= self.lines.len()
        &&& self.entry matches Some(e) ==> {
            &&& 0 <= e.lo <= e.hi <= self.lines.len()
            &&& e.mode == Mode::Insert ==> e.lo == e.hi && e.lo == insert_point(self.current)
        }
    }

    /// After `[lo, hi)` is replaced by `block`.
    pub open spec fn edited(self, lo: int, hi: int, block: Seq<Seq<char>>) -> EditorView {
        EditorView {
            lines: splice(self.lines, lo, hi, block),
            current: cursor_after(self.current, lo, hi, block.len() as int),
            saved: false,
            ..self
        }
    }

    /// After `block` is inserted at the insertion point.
    pub open spec fn inserted(self, block: Seq<Seq<char>>) -> EditorView {
        EditorView {
            lines: splice(
                self.lines,
                insert_point(self.current),
                insert_point(self.current),
                block,
            ),
            current: self.current + block.len(),
            saved: false,
            ..self
        }
    }

    /// Text entry ends: the collected lines go in.
    pub open spec fn committed(self) -> EditorView {
        match self.entry {
            Some(e) => {
                let v = EditorView { entry: None, ..self };
                if e.mode == Mode::Insert {
                    v.inserted(e.lines)
                } else {
                    v.edited(e.lo, e.hi, e.lines)
                }
            },
            None => self,
        }
    }

    /// One more text line is collected.
    pub open spec fn fed(self, l: Seq<char>) -> EditorView {
        match self.entry {
            Some(e) => EditorView {
                entry: Some(EntryView { lines: e.lines.push(l), ..e }),
                ..self
            },
            None => self,
        }
    }

    /// Text entry begins.
    pub open spec fn entering(self, mode: Mode, lo: int, hi: int) -> EditorView {
        EditorView { entry: Some(EntryView { mode, lo, hi, lines: seq![] }), ..self }
    }

    /// After each of `ls` is collected in turn.
    pub open spec fn fed_all(self, ls: Seq<Seq<char>>) -> EditorView
        decreases ls.len(),
    {
        if ls.len() == 0 {
            self
        } else {
            self.fed_all(ls.drop_last()).fed(ls.last())
        }
    }

    /// State and effect after a quit.
    pub open spec fn quit(self) -> (EditorView, Effect) {
        if self.saved {
            (self, Effect::Exit(0))
        } else {
            (EditorView { saved: true, ..self }, Effect::UnsavedWarning)
        }
    }

    /// The file that a write goes to: the name given, else the remembered one.
    pub open spec fn target(self, name: Option<Seq<char>>) -> Option<Seq<char>> {
        match name {
            Some(n) => Some(n),
            None => self.filename,
        }
    }
}

/// A session just opened on `lines`.
pub open spec fn fresh(lines: Seq<Seq<char>>, filename: Option<Seq<char>>) -> EditorView {
    EditorView {
        lines,
        current: lines.len() as int,
        saved: true,
        filename,
        entry: None,
        pending: None,
    }
}

/// What applying `cmd` to `v` does: `w` is the state after, `r` the result.
pub open spec fn applied(v: EditorView, cmd: Command, w: EditorView, r: Result<Effect, EditError>) -> bool {
    match cmd {
        Command::Quit => w == v.quit().0 && r == Ok::<Effect, EditError>(v.quit().1),
        Command::ForceQuit => w == v && r == Ok::<Effect, EditError>(Effect::Exit(0)),
        Command::Print(g) => w == v && r == if g != Range::Current && resolve_spec(
            g,
            v.lines.len() as int,
            v.current,
        ) is None {
            Err::<Effect, EditError>(EditError::AddressOutOfRange)
        } else {
            Ok::<Effect, EditError>(Effect::Print)
        },
        Command::Line => w == v && (r matches Ok(Effect::ShowLine(n)) && n == v.current),
        Command::Write(name) => write_started(v, opt_view(name), false, w, r),
        Command::WriteQuit(name) => write_started(v, opt_view(name), true, w, r),
        Command::Insert => w == v.entering(
            Mode::Insert,
            insert_point(v.current),
            insert_point(v.current),
        ) && r == Ok::<Effect, EditError>(Effect::RequestMoreLines(Mode::Insert)),
        Command::Delete(g) => match resolve_spec(g, v.lines.len() as int, v.current) {
            Some((lo, hi)) => w == v.edited(lo, hi, seq![]) && r == Ok::<Effect, EditError>(
                Effect::Continue,
            ),
            None => w == v && r == Err::<Effect, EditError>(EditError::AddressOutOfRange),
        },
        Command::Change(g, text) => match resolve_spec(g, v.lines.len() as int, v.current) {
            Some((lo, hi)) => match text {
                Some(t) => w == v.edited(lo, hi, seq![t@]) && r == Ok::<Effect, EditError>(
                    Effect::Continue,
                ),
                None => w == v.entering(Mode::Change, lo, hi) && r == Ok::<Effect, EditError>(
                    Effect::RequestMoreLines(Mode::Change),
                ),
            },
            None => w == v && r == Err::<Effect, EditError>(EditError::AddressOutOfRange),
        },
    }
}

/// What asking for a write does: the file named, else the one remembered, or no file at all.
pub open spec fn write_started(
    v: EditorView,
    name: Option<Seq<char>>,
    quit: bool,
    w: EditorView,
    r: Result<Effect, EditError>,
) -> bool {
    match v.target(name) {
        Some(t) => w == (EditorView { pending: Some((name, quit)), ..v }) && (r matches Ok(
            Effect::WriteFile(p),
        ) && p@ == t),
        None => w == v && r == Err::<Effect, EditError>(EditError::NoFilename),
    }
}

/// Resolves an address against a buffer of `len` lines whose current line is `current`.
pub fn resolve(range: Range, len: usize, current: usize) -> (r: Result<(usize, usize), EditError>)
    ensures
        match resolve_spec(range, len as int, current as int) {
            Some((lo, hi)) => r == Ok::<(usize, usize), EditError>((lo as usize, hi as usize)),
            None => r == Err::<(usize, usize), EditError>(EditError::AddressOutOfRange),
        },
{
    let (lo, hi) = match range {
        Range::Single(n) => {
            if n == 0 {
                return Err(EditError::AddressOutOfRange);
            }
            (n - 1, n)
        },
        Range::Bounded(a, b) => {
            if a == 0 {
                return Err(EditError::AddressOutOfRange);
            }
            (a - 1, b)
        },
        Range::Start(a) => {
            if a == 0 {
                return Err(EditError::AddressOutOfRange);
            }
            (a - 1, len)
        },
        Range::End(b) => (0, b),
        Range::Current => {
            if current == 0 {
                return Err(EditError::AddressOutOfRange);
            }
            (current - 1, current)
        },
    };
    if lo <= hi && hi <= len {
        Ok((lo, hi))
    } else {
        Err(EditError::AddressOutOfRange)
    }
}

/// How far the cursor moves back when `range` is taken out: its length when
/// it starts before the cursor, else nothing.
pub fn normalize_curr_line(range: &std::ops::Range<usize>, current: usize) -> (r: usize)
    requires
        range.start <= range.end,
    ensures
        r == if range.start < current { range.end - range.start } else { 0 },
{
    if range.start < current {
        return range.end - range.start;
    }
    0
}

/// What reporting the outcome of a write does.
pub open spec fn write_reported(v: EditorView, ok: bool, w: EditorView, r: Result<Effect, EditError>) -> bool {
    match v.pending {
        None => w == v && r == Ok::<Effect, EditError>(Effect::Continue),
        Some((name, quit)) => if ok {
            &&& w == (EditorView {
                saved: true,
                filename: v.target(name),
                pending: None,
                ..v
            })
            &&& r == Ok::<Effect, EditError>(if quit { Effect::Exit(0) } else { Effect::Continue })
        } else {
            w == (EditorView { pending: None, ..v }) && r == Err::<Effect, EditError>(
                EditError::WriteFailed,
            )
        },
    }
}

/// What handing a text line to a collecting editor does.
pub open spec fn line_fed(v: EditorView, l: Seq<char>, w: EditorView, r: Effect) -> bool {
    if sentinel(l) {
        w == v.committed() && r == Effect::Continue
    } else {
        w == v.fed(l) && r == Effect::RequestMoreLines(v.entry->0.mode)
    }
}

/// What taking one input line does: text while collecting lines, else the
/// command that the line parses to.
pub open spec fn handled(v: EditorView, line: Seq<char>, w: EditorView, r: Result<Effect, EditError>) -> bool {
    if v.entry is Some {
        r matches Ok(f) && line_fed(v, line, w, f)
    } else {
        (exists|c: Command| #[trigger] parsed(line, Ok(c)) && applied(v, c, w, r)) || (exists|
            e: EditError,
        | #[trigger] parsed(line, Err(e)) && r == Err::<Effect, EditError>(e) && w == v)
    }
}

struct Entry {
    mode: Mode,
    lo: usize,
    hi: usize,
    lines: Vec<String>,
}

struct PendingWrite {
    name: Option<String>,
    quit: bool,
}

/// One editing session: the buffer, its cursor, and what is being collected or written.
pub struct Editor {
    lines: Vec<String>,
    current: usize,
    saved: bool,
    filename: Option<String>,
    entry: Option<Entry>,
    pending: Option<PendingWrite>,
}

impl View for Editor {
    type V = EditorView;

    closed spec fn view(&self) -> EditorView {
        EditorView {
            lines: lines_view(self.lines@),
            current: self.current as int,
            saved: self.saved,
            filename: opt_view(self.filename),
            entry: match self.entry {
                Some(e) => Some(
                    EntryView { mode: e.mode, lo: e.lo as int, hi: e.hi as int, lines: lines_view(e.lines@) },
                ),
                None => None,
            },
            pending: match self.pending {
                Some(p) => Some((opt_view(p.name), p.quit)),
                None => None,
            },
        }
    }
}

fn is_sentinel(l: &String) -> (r: bool)
    ensures
        r == sentinel(l@),
{
    let s = l.as_str();
    let n = s.unicode_len();
    proof {
        assert("."@ =~= seq!['.']) by { reveal_strlit("."); }
        assert(".\n"@ =~= seq!['.', '\n']) by { reveal_strlit(".\n"); }
    }
    if n == 1 {
        let r = s.get_char(0) == '.';
        proof {
            if r {
                assert(s@ =~= seq!['.']);
            }
        }
        r
    } else if n == 2 {
        let r = s.get_char(0) == '.' && s.get_char(1) == '\n';
        proof {
            if r {
                assert(s@ =~= seq!['.', '\n']);
            }
        }
        r
    } else {
        false
    }
}

impl Editor {
    /// A session on `lines`, with the cursor on the last line and nothing to save.
    pub fn new(lines: Vec<String>, filename: Option<String>) -> (r: Editor)
        ensures
            r@ == fresh(lines_view(lines@), opt_view(filename)),
            r@.wf(),
    {
        let current = lines.len();
        Editor { lines, current, saved: true, filename, entry: None, pending: None }
    }

    pub fn lines(&self) -> (r: &Vec<String>)
        ensures
            lines_view(r@) == self@.lines,
    {
        &self.lines
    }

    pub fn current_line(&self) -> (r: usize)
        ensures
            r == self@.current,
    {
        self.current
    }

    pub fn is_saved(&self) -> (r: bool)
        ensures
            r == self@.saved,
    {
        self.saved
    }

    pub fn in_text_entry(&self) -> (r: bool)
        ensures
            r == self@.entry is Some,
    {
        self.entry.is_some()
    }

    /// Replaces `[lo, hi)` by `block` and moves the cursor by the cursor rule.
    fn replace(&mut self, lo: usize, hi: usize, block: Vec<String>)
        requires
            old(self)@.wf(),
            old(self)@.entry is None,
            lo <= hi <= old(self)@.lines.len(),
        ensures
            final(self)@ == old(self)@.edited(lo as int, hi as int, lines_view(block@)),
            final(self)@.wf(),
    {
        let ghost before = self.lines@;
        let k = block.len();
        let mut block = block;
        let ghost added = block@;
        let mut tail = self.lines.split_off(hi);
        self.lines.truncate(lo);
        self.lines.append(&mut block);
        self.lines.append(&mut tail);
        let total = self.lines.len();
        assert(total == lo + k + (before.len() - hi));
        let cur = self.current;
        assert(cur <= before.len());
        if lo < cur {
            let shift = normalize_curr_line(&(lo..hi), cur);
            if shift <= cur {
                self.current = cur - shift + k;
            } else if k >= shift - cur {
                self.current = k - (shift - cur);
            } else {
                self.current = 0;
            }
        }
        self.saved = false;
        proof {
            assert(self.lines@ =~= before.subrange(0, lo as int) + added + before.subrange(
                hi as int,
                before.len() as int,
            ));
            assert(lines_view(self.lines@) =~= splice(
                lines_view(before),
                lo as int,
                hi as int,
                lines_view(added),
            ));
        }
    }

    /// Inserts `block` at the insertion point and moves the cursor past it.
    fn insert_block(&mut self, block: Vec<String>)
        requires
            old(self)@.wf(),
            old(self)@.entry is None,
        ensures
            final(self)@ == old(self)@.inserted(lines_view(block@)),
            final(self)@.wf(),
    {
        let ghost before = self.lines@;
        let cur = self.current;
        let p = if cur == 0 { 0 } else { cur - 1 };
        let k = block.len();
        let mut block = block;
        let ghost added = block@;
        let mut tail = self.lines.split_off(p);
        self.lines.append(&mut block);
        self.lines.append(&mut tail);
        let total = self.lines.len();
        assert(total == before.len() + k);
        assert(cur + k <= total);
        self.current = cur + k;
        self.saved = false;
        proof {
            assert(self.lines@ =~= before.subrange(0, p as int) + added + before.subrange(
                p as int,
                before.len() as int,
            ));
            assert(lines_view(self.lines@) =~= splice(
                lines_view(before),
                p as int,
                p as int,
                lines_view(added),
            ));
        }
    }

    fn start_write(&mut self, name: Option<String>, quit: bool) -> (r: Result<Effect, EditError>)
        requires
            old(self)@.wf(),
            old(self)@.entry is None,
        ensures
            write_started(old(self)@, opt_view(name), quit, final(self)@, r),
            final(self)@.wf(),
            final(self)@.entry is None,
    {
        let target = match &name {
            Some(n) => n.clone(),
            None => match &self.filename {
                Some(f) => f.clone(),
                None => {
                    return Err(EditError::NoFilename);
                },
            },
        };
        self.pending = Some(PendingWrite { name, quit });
        Ok(Effect::WriteFile(target))
    }

    /// Carries out a command in command mode.
    pub fn apply(&mut self, cmd: Command) -> (r: Result<Effect, EditError>)
        requires
            old(self)@.wf(),
            old(self)@.entry is None,
        ensures
            applied(old(self)@, cmd, final(self)@, r),
            final(self)@.wf(),
    {
        match cmd {
            Command::Quit => {
                if self.saved {
                    Ok(Effect::Exit(0))
                } else {
                    self.saved = true;
                    Ok(Effect::UnsavedWarning)
                }
            },
            Command::ForceQuit => Ok(Effect::Exit(0)),
            Command::Print(g) => {
                if g != Range::Current {
                    if let Err(e) = resolve(g, self.lines.len(), self.current) {
                        return Err(e);
                    }
                }
                Ok(Effect::Print)
            },
            Command::Line => Ok(Effect::ShowLine(self.current)),
            Command::Write(name) => self.start_write(name, false),
            Command::WriteQuit(name) => self.start_write(name, true),
            Command::Insert => {
                let cur = self.current;
                let p = if cur == 0 { 0 } else { cur - 1 };
                let empty: Vec<String> = Vec::new();
                proof {
                    assert(lines_view(empty@) =~= seq![]);
                }
                self.entry = Some(Entry { mode: Mode::Insert, lo: p, hi: p, lines: empty });
                Ok(Effect::RequestMoreLines(Mode::Insert))
            },
            Command::Delete(g) => match resolve(g, self.lines.len(), self.current) {
                Err(e) => Err(e),
                Ok((lo, hi)) => {
                    let empty: Vec<String> = Vec::new();
                    proof {
                        assert(lines_view(empty@) =~= seq![]);
                    }
                    self.replace(lo, hi, empty);
                    Ok(Effect::Continue)
                },
            },
            Command::Change(g, text) => match resolve(g, self.lines.len(), self.current) {
                Err(e) => Err(e),
                Ok((lo, hi)) => match text {
                    Some(t) => {
                        let ghost tv = t@;
                        let mut block = Vec::new();
                        block.push(t);
                        proof {
                            assert(lines_view(block@) =~= seq![tv]);
                        }
                        self.replace(lo, hi, block);
                        Ok(Effect::Continue)
                    },
                    None => {
                        let empty: Vec<String> = Vec::new();
                        proof {
                            assert(lines_view(empty@) =~= seq![]);
                        }
                        self.entry = Some(Entry { mode: Mode::Change, lo, hi, lines: empty });
                        Ok(Effect::RequestMoreLines(Mode::Change))
                    },
                },
            },
        }
    }

    /// Hands one text line to an editor that is collecting lines.
    pub fn feed_line(&mut self, line: String) -> (r: Effect)
        requires
            old(self)@.wf(),
            old(self)@.entry is Some,
        ensures
            line_fed(old(self)@, line@, final(self)@, r),
            final(self)@.wf(),
    {
        let stop = is_sentinel(&line);
        let e = self.entry.take();
        match e {
            Some(e) => {
                if stop {
                    if e.mode == Mode::Insert {
                        self.insert_block(e.lines);
                    } else {
                        self.replace(e.lo, e.hi, e.lines);
                    }
                    Effect::Continue
                } else {
                    let mode = e.mode;
                    let mut e = e;
                    let ghost lv = line@;
                    let ghost old_lines = e.lines@;
                    e.lines.push(line);
                    proof {
                        assert(lines_view(e.lines@) =~= lines_view(old_lines).push(lv));
                    }
                    self.entry = Some(e);
                    Effect::RequestMoreLines(mode)
                }
            },
            None => Effect::Continue,
        }
    }

    /// Reports how the write handed out last went.
    pub fn write_finished(&mut self, ok: bool) -> (r: Result<Effect, EditError>)
        requires
            old(self)@.wf(),
        ensures
            write_reported(old(self)@, ok, final(self)@, r),
            final(self)@.wf(),
    {
        match self.pending.take() {
            None => Ok(Effect::Continue),
            Some(p) => {
                if ok {
                    self.saved = true;
                    if p.name.is_some() {
                        self.filename = p.name;
                    }
                    if p.quit {
                        Ok(Effect::Exit(0))
                    } else {
                        Ok(Effect::Continue)
                    }
                } else {
                    Err(EditError::WriteFailed)
                }
            },
        }
    }

    /// Takes one line of input: text while collecting lines, else a command.
    pub fn handle_line(&mut self, line: String) -> (r: Result<Effect, EditError>)
        requires
            old(self)@.wf(),
        ensures
            final(self)@.wf(),
            handled(old(self)@, line@, final(self)@, r),
    {
        if self.entry.is_some() {
            return Ok(self.feed_line(line));
        }
        match parse_command(line.as_str()) {
            Err(e) => {
                assert(parsed(line@, Err(e)));
                Err(e)
            },
            Ok(cmd) => {
                let ghost c = cmd;
                let ghost before = self@;
                let r = self.apply(cmd);
                assert(parsed(line@, Ok(c)) && applied(before, c, self@, r));
                r
            },
        }
    }
}

} // verus!
