//! The interactive shell: line editing with history, and the reading of a
//! command line into the command to run. Printing and running commands
//! is left to the caller.
use vstd::prelude::*;
use vstd::string::StringSliceAdditionalSpecFns;
use crate::keyboard::{KEY_DELETE, KEY_UP, KEY_DOWN, KEY_RIGHT, KEY_LEFT, KEY_HOME, KEY_END, KEY_CTRL_A, KEY_CTRL_E,
    KEY_CTRL_U, KEY_CTRL_K, KEY_CTRL_C, KEY_CTRL_L, KEY_TAB};
use crate::text::bytes_eq;
use crate::fs::fat32::Fat32Fs;
use crate::fs::fat32_dir::{dir_list, create_outcome, short_8_3};
use crate::fs::fat32_file::{file_read, fat_write};
use crate::drivers::ide::IdeDisk;
use crate::syscall::{first_named, find_named};

verus! {

/// `n` copies of `c`.
pub open spec fn rep(c: char, n: int) -> Seq<char> {
    Seq::new(if n < 0 { 0 } else { n as nat }, |i: int| c)
}

/// Backspaces that move the terminal cursor `n` places left.
pub open spec fn backs(n: int) -> Seq<char> {
    rep('\u{8}', n)
}

/// What erases the shown line `input` with the cursor at `cursor`: move to
/// its end, blank it, move back to its start.
pub open spec fn clear_echo(input: Seq<char>, cursor: int) -> Seq<char> {
    rep(KEY_RIGHT, input.len() - cursor) + if input.len() > 0 {
        rep(' ', input.len() as int) + backs(input.len() as int)
    } else {
        Seq::empty()
    }
}

/// The part of `input` after the cursor, redrawn, and the cursor moved back.
pub open spec fn redraw_tail(input: Seq<char>, cursor: int) -> Seq<char> {
    let tail = input.subrange(cursor, input.len() as int);
    tail + backs(tail.len() as int)
}

/// Printable ASCII.
pub open spec fn printable(c: char) -> bool {
    0x20 <= (c as u32) && (c as u32) <= 0x7E
}

/// The editor state after a key, what to print before running a command,
/// the line to run (Enter), and what to print after it.
pub struct EditStep {
    pub input: Seq<char>,
    pub cursor: int,
    pub history: Seq<Seq<char>>,
    pub index: int,
    pub echo: Seq<char>,
    pub command: Option<Seq<char>>,
    pub after: Seq<char>,
}

/// The effect of key `c` on line `input` with the cursor at `cursor`, the
/// history and the history position `idx`.
pub open spec fn edit_step(input: Seq<char>, cursor: int, history: Seq<Seq<char>>, idx: int, c: char) -> EditStep {
    let same = EditStep { input, cursor, history, index: idx, echo: Seq::empty(), command: None, after: Seq::empty() };
    if c == '\u{8}' {
        if cursor > 0 {
            let ni = input.remove(cursor - 1);
            EditStep { input: ni, cursor: cursor - 1, echo: seq!['\u{8}', ' ', '\u{8}'] + redraw_tail(ni, cursor - 1), ..same }
        } else {
            same
        }
    } else if c == KEY_DELETE {
        if cursor < input.len() {
            let ni = input.remove(cursor);
            let tail = ni.subrange(cursor, ni.len() as int);
            EditStep {
                input: ni,
                echo: if tail.len() > 0 { tail + seq![' '] + backs(tail.len() + 1int) } else { Seq::empty() },
                ..same
            }
        } else {
            same
        }
    } else if c == KEY_UP {
        if history.len() > 0 && idx > 0 {
            let ni = history[idx - 1];
            EditStep { input: ni, cursor: ni.len() as int, index: idx - 1, echo: clear_echo(input, cursor) + ni, ..same }
        } else {
            same
        }
    } else if c == KEY_DOWN {
        if history.len() > 0 && idx < history.len() - 1 {
            let ni = history[idx + 1];
            EditStep { input: ni, cursor: ni.len() as int, index: idx + 1, echo: clear_echo(input, cursor) + ni, ..same }
        } else if idx == (if history.len() > 0 { history.len() - 1 } else { 0 }) {
            EditStep { input: Seq::empty(), cursor: 0, echo: clear_echo(input, cursor), ..same }
        } else {
            same
        }
    } else if c == KEY_RIGHT {
        if cursor < input.len() { EditStep { cursor: cursor + 1, echo: seq![KEY_RIGHT], ..same } } else { same }
    } else if c == KEY_LEFT {
        if cursor > 0 { EditStep { cursor: cursor - 1, echo: seq![KEY_LEFT], ..same } } else { same }
    } else if c == KEY_HOME || c == KEY_CTRL_A {
        EditStep { cursor: 0, echo: rep(KEY_LEFT, cursor), ..same }
    } else if c == KEY_END || c == KEY_CTRL_E {
        EditStep { cursor: input.len() as int, echo: rep(KEY_RIGHT, input.len() - cursor), ..same }
    } else if c == KEY_CTRL_U {
        EditStep { input: Seq::empty(), cursor: 0, echo: clear_echo(input, cursor), ..same }
    } else if c == KEY_CTRL_K {
        let tl = input.len() - cursor;
        EditStep { input: input.subrange(0, cursor), echo: rep(' ', tl) + backs(tl), ..same }
    } else if c == KEY_CTRL_C {
        EditStep { input: Seq::empty(), cursor: 0, echo: seq!['^', 'C', '\n', '>', ' '], ..same }
    } else if c == KEY_CTRL_L {
        EditStep { echo: rep('\n', 50) + seq!['>', ' '] + input + backs(input.len() - cursor), ..same }
    } else if c == KEY_TAB {
        let sp = seq![' ', ' ', ' ', ' '];
        let ni = input.subrange(0, cursor) + sp + input.subrange(cursor, input.len() as int);
        EditStep { input: ni, cursor: cursor + 4, echo: sp + redraw_tail(ni, cursor + 4), ..same }
    } else if c == '\n' {
        let nh = if input.len() > 0 { history.push(input) } else { history };
        EditStep {
            input: Seq::empty(),
            cursor: 0,
            history: nh,
            index: if input.len() > 0 { nh.len() as int } else { idx },
            echo: seq!['\n'],
            command: Some(input),
            after: seq!['>', ' '],
        }
    } else if printable(c) {
        let ni = input.insert(cursor, c);
        EditStep { input: ni, cursor: cursor + 1, echo: seq![c] + redraw_tail(ni, cursor + 1), ..same }
    } else {
        same
    }
}

/// What a key produced: text to print, the line to run if Enter was
/// pressed, and text to print after running it.
pub struct KeyOutput {
    pub echo: Vec<char>,
    pub command: Option<Vec<char>>,
    pub after: Vec<char>,
}

/// The shell's line editor: the line being typed, the cursor in it, the
/// lines entered so far and the position while browsing them.
pub struct LineEditor {
    input: Vec<char>,
    cursor: usize,
    history: Vec<Vec<char>>,
    history_index: usize,
}

fn push_rep(out: &mut Vec<char>, c: char, n: usize)
    ensures
        final(out)@ == old(out)@ + rep(c, n as int),
{
    let mut i: usize = 0;
    while i < n
        invariant
            0 <= i <= n,
            out@ == old(out)@ + rep(c, i as int),
        decreases n - i,
    {
        out.push(c);
        i = i + 1;
        assert(out@ =~= old(out)@ + rep(c, i as int));
    }
}

fn push_all(out: &mut Vec<char>, s: &Vec<char>, from: usize)
    requires
        from <= s@.len(),
    ensures
        final(out)@ == old(out)@ + s@.subrange(from as int, s@.len() as int),
{
    let mut i: usize = from;
    while i < s.len()
        invariant
            from <= i <= s@.len(),
            out@ == old(out)@ + s@.subrange(from as int, i as int),
        decreases s.len() - i,
    {
        out.push(s[i]);
        i = i + 1;
        assert(out@ =~= old(out)@ + s@.subrange(from as int, i as int));
    }
}

fn copy_line(s: &Vec<char>) -> (r: Vec<char>)
    ensures
        r@ == s@,
{
    let mut r: Vec<char> = Vec::new();
    push_all(&mut r, s, 0);
    assert(s@.subrange(0, s@.len() as int) =~= s@);
    r
}

impl LineEditor {
    pub closed spec fn input_view(&self) -> Seq<char> {
        self.input@
    }

    pub closed spec fn cursor_view(&self) -> int {
        self.cursor as int
    }

    pub closed spec fn history_view(&self) -> Seq<Seq<char>> {
        Seq::new(self.history@.len(), |i: int| self.history@[i]@)
    }

    pub closed spec fn index_view(&self) -> int {
        self.history_index as int
    }

    /// The cursor stays within the line, the history position within
    /// the history.
    pub open spec fn wf(&self) -> bool {
        &&& 0 <= self.cursor_view() <= self.input_view().len()
        &&& 0 <= self.index_view() <= self.history_view().len()
    }

    /// An empty line and no history.
    pub fn new() -> (e: Self)
        ensures
            e.wf(),
            e.input_view() == Seq::<char>::empty(),
            e.cursor_view() == 0,
            e.history_view() == Seq::<Seq<char>>::empty(),
            e.index_view() == 0,
    {
        let e = LineEditor { input: Vec::new(), cursor: 0, history: Vec::new(), history_index: 0 };
        assert(e.history_view() =~= Seq::<Seq<char>>::empty());
        e
    }

    fn clear_into(&self, out: &mut Vec<char>)
        requires
            self.wf(),
        ensures
            final(out)@ == old(out)@ + clear_echo(self.input_view(), self.cursor_view()),
    {
        let len = self.input.len();
        push_rep(out, KEY_RIGHT, len - self.cursor);
        if len > 0 {
            push_rep(out, ' ', len);
            push_rep(out, '\u{8}', len);
        }
        assert(final_out_eq(out@, old(out)@, self.input_view(), self.cursor_view()));
    }

    /// Handle one key: update the line, cursor and history as `edit_step`
    /// says and return what to print and run.
    pub fn handle_key(&mut self, c: char) -> (r: KeyOutput)
        requires
            old(self).wf(),
            old(self).input_view().len() + 4 <= usize::MAX,
            old(self).history_view().len() + 1 <= usize::MAX,
        ensures
            final(self).wf(),
            step_holds(*old(self), *final(self), r, c),
    {
        if c == '\u{8}' {
            self.key_backspace()
        } else if c == KEY_DELETE {
            self.key_delete()
        } else if c == KEY_UP {
            self.key_up()
        } else if c == KEY_DOWN {
            self.key_down()
        } else if c == KEY_RIGHT || c == KEY_LEFT || c == KEY_HOME || c == KEY_CTRL_A || c == KEY_END || c == KEY_CTRL_E {
            self.key_move(c)
        } else if c == KEY_CTRL_U || c == KEY_CTRL_K || c == KEY_CTRL_C || c == KEY_CTRL_L {
            self.key_control(c)
        } else if c == KEY_TAB {
            self.key_tab()
        } else if c == '\n' {
            self.key_enter()
        } else {
            self.key_char(c)
        }
    }

    fn output(echo: Vec<char>) -> (r: KeyOutput)
        ensures
            r.echo@ == echo@,
            r.command is None,
            r.after@ == Seq::<char>::empty(),
    {
        KeyOutput { echo, command: None, after: Vec::new() }
    }

    fn key_backspace(&mut self) -> (r: KeyOutput)
        requires
            old(self).wf(),
        ensures
            final(self).wf(),
            step_holds(*old(self), *final(self), r, '\u{8}'),
    {
        let mut echo: Vec<char> = Vec::new();
        if self.cursor > 0 {
            self.cursor = self.cursor - 1;
            self.input.remove(self.cursor);
            echo.push('\u{8}');
            echo.push(' ');
            echo.push('\u{8}');
            push_all(&mut echo, &self.input, self.cursor);
            push_rep(&mut echo, '\u{8}', self.input.len() - self.cursor);
            assert(echo@ =~= seq!['\u{8}', ' ', '\u{8}'] + redraw_tail(self.input@, self.cursor as int));
        }
        proof {
            assert(self.history_view() =~= old(self).history_view());
        }
        Self::output(echo)
    }

    fn key_delete(&mut self) -> (r: KeyOutput)
        requires
            old(self).wf(),
        ensures
            final(self).wf(),
            step_holds(*old(self), *final(self), r, KEY_DELETE),
    {
        let mut echo: Vec<char> = Vec::new();
        if self.cursor < self.input.len() {
            self.input.remove(self.cursor);
            if self.cursor < self.input.len() {
                push_all(&mut echo, &self.input, self.cursor);
                echo.push(' ');
                push_rep(&mut echo, '\u{8}', self.input.len() - self.cursor + 1);
                assert(echo@ =~= self.input@.subrange(self.cursor as int, self.input@.len() as int) + seq![' ']
                    + backs(self.input@.len() - self.cursor + 1int));
            }
        }
        proof {
            assert(self.history_view() =~= old(self).history_view());
        }
        Self::output(echo)
    }

    fn load_history(&mut self, idx: usize, echo: &mut Vec<char>)
        requires
            old(self).wf(),
            idx < old(self).history_view().len(),
        ensures
            final(self).input_view() == old(self).history_view()[idx as int],
            final(self).cursor_view() == old(self).history_view()[idx as int].len(),
            final(self).history_view() == old(self).history_view(),
            final(self).index_view() == idx,
            final(echo)@ == old(echo)@ + clear_echo(old(self).input_view(), old(self).cursor_view()) + old(self).history_view()[idx as int],
    {
        self.clear_into(echo);
        let line = copy_line(&self.history[idx]);
        let ghost e1 = echo@;
        push_all(echo, &line, 0);
        assert(line@.subrange(0, line@.len() as int) =~= line@);
        self.cursor = line.len();
        self.input = line;
        self.history_index = idx;
        proof {
            assert(self.history_view() =~= old(self).history_view());
        }
    }

    fn key_up(&mut self) -> (r: KeyOutput)
        requires
            old(self).wf(),
        ensures
            final(self).wf(),
            step_holds(*old(self), *final(self), r, KEY_UP),
    {
        let mut echo: Vec<char> = Vec::new();
        if self.history.len() > 0 && self.history_index > 0 {
            let i = self.history_index - 1;
            self.load_history(i, &mut echo);
        }
        proof {
            assert(self.history_view() =~= old(self).history_view());
        }
        Self::output(echo)
    }

    fn key_down(&mut self) -> (r: KeyOutput)
        requires
            old(self).wf(),
        ensures
            final(self).wf(),
            step_holds(*old(self), *final(self), r, KEY_DOWN),
    {
        let mut echo: Vec<char> = Vec::new();
        let hl = self.history.len();
        if hl > 0 && self.history_index < hl - 1 {
            let i = self.history_index + 1;
            self.load_history(i, &mut echo);
        } else if self.history_index == (if hl > 0 { hl - 1 } else { 0 }) {
            self.clear_into(&mut echo);
            assert(echo@ =~= clear_echo(old(self).input_view(), old(self).cursor_view()));
            self.input = Vec::new();
            self.cursor = 0;
        }
        proof {
            assert(self.history_view() =~= old(self).history_view());
        }
        Self::output(echo)
    }

    fn key_move(&mut self, c: char) -> (r: KeyOutput)
        requires
            old(self).wf(),
            c == KEY_RIGHT || c == KEY_LEFT || c == KEY_HOME || c == KEY_CTRL_A || c == KEY_END || c == KEY_CTRL_E,
        ensures
            final(self).wf(),
            step_holds(*old(self), *final(self), r, c),
    {
        let mut echo: Vec<char> = Vec::new();
        let len = self.input.len();
        if c == KEY_RIGHT {
            if self.cursor < len {
                self.cursor = self.cursor + 1;
                echo.push(KEY_RIGHT);
            }
        } else if c == KEY_LEFT {
            if self.cursor > 0 {
                self.cursor = self.cursor - 1;
                echo.push(KEY_LEFT);
            }
        } else if c == KEY_HOME || c == KEY_CTRL_A {
            push_rep(&mut echo, KEY_LEFT, self.cursor);
            assert(echo@ =~= rep(KEY_LEFT, old(self).cursor_view()));
            self.cursor = 0;
        } else {
            push_rep(&mut echo, KEY_RIGHT, len - self.cursor);
            assert(echo@ =~= rep(KEY_RIGHT, len - old(self).cursor_view()));
            self.cursor = len;
        }
        Self::output(echo)
    }

    fn key_control(&mut self, c: char) -> (r: KeyOutput)
        requires
            old(self).wf(),
            c == KEY_CTRL_U || c == KEY_CTRL_K || c == KEY_CTRL_C || c == KEY_CTRL_L,
        ensures
            final(self).wf(),
            step_holds(*old(self), *final(self), r, c),
    {
        let mut echo: Vec<char> = Vec::new();
        let len = self.input.len();
        if c == KEY_CTRL_U {
            self.clear_into(&mut echo);
            assert(echo@ =~= clear_echo(old(self).input_view(), old(self).cursor_view()));
            self.input = Vec::new();
            self.cursor = 0;
        } else if c == KEY_CTRL_K {
            let tl = len - self.cursor;
            push_rep(&mut echo, ' ', tl);
            push_rep(&mut echo, '\u{8}', tl);
            assert(echo@ =~= rep(' ', tl as int) + backs(tl as int));
            self.input.truncate(self.cursor);
            assert(self.input@ =~= old(self).input@.subrange(0, old(self).cursor as int));
        } else if c == KEY_CTRL_C {
            echo.push('^');
            echo.push('C');
            echo.push('\n');
            echo.push('>');
            echo.push(' ');
            assert(echo@ =~= seq!['^', 'C', '\n', '>', ' ']);
            self.input = Vec::new();
            self.cursor = 0;
        } else {
            push_rep(&mut echo, '\n', 50);
            echo.push('>');
            echo.push(' ');
            push_all(&mut echo, &self.input, 0);
            push_rep(&mut echo, '\u{8}', len - self.cursor);
            assert(self.input@.subrange(0, self.input@.len() as int) =~= self.input@);
            assert(echo@ =~= rep('\n', 50) + seq!['>', ' '] + self.input@ + backs(len - self.cursor));
        }
        proof {
            assert(self.history_view() =~= old(self).history_view());
        }
        Self::output(echo)
    }

    fn key_tab(&mut self) -> (r: KeyOutput)
        requires
            old(self).wf(),
            old(self).input_view().len() + 4 <= usize::MAX,
        ensures
            final(self).wf(),
            step_holds(*old(self), *final(self), r, KEY_TAB),
    {
        let mut k: usize = 0;
        while k < 4
            invariant
                0 <= k <= 4,
                self.cursor == old(self).cursor + k,
                self.history == old(self).history,
                self.history_index == old(self).history_index,
                old(self).cursor <= old(self).input@.len(),
                old(self).input@.len() + 4 <= usize::MAX,
                self.input@ == old(self).input@.subrange(0, old(self).cursor as int) + rep(' ', k as int)
                    + old(self).input@.subrange(old(self).cursor as int, old(self).input@.len() as int),
            decreases 4 - k,
        {
            self.input.insert(self.cursor, ' ');
            self.cursor = self.cursor + 1;
            k = k + 1;
            assert(self.input@ =~= old(self).input@.subrange(0, old(self).cursor as int) + rep(' ', k as int)
                + old(self).input@.subrange(old(self).cursor as int, old(self).input@.len() as int));
        }
        let mut echo: Vec<char> = Vec::new();
        push_rep(&mut echo, ' ', 4);
        push_all(&mut echo, &self.input, self.cursor);
        push_rep(&mut echo, '\u{8}', self.input.len() - self.cursor);
        proof {
            assert(rep(' ', 4) =~= seq![' ', ' ', ' ', ' ']);
            assert(echo@ =~= seq![' ', ' ', ' ', ' '] + redraw_tail(self.input@, self.cursor as int));
            assert(self.history_view() =~= old(self).history_view());
        }
        Self::output(echo)
    }

    fn key_enter(&mut self) -> (r: KeyOutput)
        requires
            old(self).wf(),
            old(self).history_view().len() + 1 <= usize::MAX,
        ensures
            final(self).wf(),
            step_holds(*old(self), *final(self), r, '\n'),
    {
        let mut echo: Vec<char> = Vec::new();
        echo.push('\n');
        let line = copy_line(&self.input);
        if self.input.len() > 0 {
            let h = copy_line(&self.input);
            let ghost hv = self.history_view();
            self.history.push(h);
            self.history_index = self.history.len();
            assert(self.history_view() =~= hv.push(old(self).input@));
        } else {
            assert(self.history_view() =~= old(self).history_view());
        }
        self.input = Vec::new();
        self.cursor = 0;
        let mut after: Vec<char> = Vec::new();
        after.push('>');
        after.push(' ');
        assert(echo@ =~= seq!['\n']);
        assert(after@ =~= seq!['>', ' ']);
        KeyOutput { echo, command: Some(line), after }
    }

    fn key_char(&mut self, c: char) -> (r: KeyOutput)
        requires
            old(self).wf(),
            old(self).input_view().len() + 1 <= usize::MAX,
            c != '\u{8}' && c != KEY_DELETE && c != KEY_UP && c != KEY_DOWN && c != KEY_RIGHT && c != KEY_LEFT,
            c != KEY_HOME && c != KEY_CTRL_A && c != KEY_END && c != KEY_CTRL_E && c != KEY_CTRL_U && c != KEY_CTRL_K,
            c != KEY_CTRL_C && c != KEY_CTRL_L && c != KEY_TAB && c != '\n',
        ensures
            final(self).wf(),
            step_holds(*old(self), *final(self), r, c),
    {
        let mut echo: Vec<char> = Vec::new();
        if (c as u32) >= 0x20 && (c as u32) <= 0x7E {
            self.input.insert(self.cursor, c);
            self.cursor = self.cursor + 1;
            echo.push(c);
            push_all(&mut echo, &self.input, self.cursor);
            push_rep(&mut echo, '\u{8}', self.input.len() - self.cursor);
            assert(echo@ =~= seq![c] + redraw_tail(self.input@, self.cursor as int));
        }
        proof {
            assert(self.history_view() =~= old(self).history_view());
        }
        Self::output(echo)
    }
}

/// `n` is what key `c` makes of `o`, and `r` is what it prints and runs
/// (see `edit_step`).
pub open spec fn step_holds(o: LineEditor, n: LineEditor, r: KeyOutput, c: char) -> bool {
    let st = edit_step(o.input_view(), o.cursor_view(), o.history_view(), o.index_view(), c);
    &&& n.input_view() == st.input
    &&& n.cursor_view() == st.cursor
    &&& n.history_view() == st.history
    &&& n.index_view() == st.index
    &&& r.echo@ == st.echo
    &&& r.after@ == st.after
    &&& match st.command {
        Some(l) => r.command matches Some(v) && v@ == l,
        None => r.command is None,
    }
}

/// Only Enter changes the history: it adds the line when it is not
/// empty. Every edit keeps the cursor within the line and the history
/// position within the history.
pub proof fn law_history_only_on_enter(input: Seq<char>, cursor: int, history: Seq<Seq<char>>, idx: int, c: char)
    requires
        0 <= cursor <= input.len(),
        0 <= idx <= history.len(),
    ensures
        c != '\n' ==> edit_step(input, cursor, history, idx, c).history == history,
        c == '\n' && input.len() > 0 ==> edit_step(input, cursor, history, idx, c).history == history.push(input),
        c == '\n' && input.len() == 0 ==> edit_step(input, cursor, history, idx, c).history == history,
        0 <= edit_step(input, cursor, history, idx, c).cursor <= edit_step(input, cursor, history, idx, c).input.len(),
        0 <= edit_step(input, cursor, history, idx, c).index <= edit_step(input, cursor, history, idx, c).history.len(),
{
}

/// A command line's words: the runs of characters between spaces.
pub open spec fn words(line: Seq<char>) -> Seq<Seq<char>>
    decreases line.len(),
{
    if line.len() == 0 {
        Seq::empty()
    } else {
        let rest = words(line.drop_last());
        if line.last() == ' ' {
            rest
        } else if line.len() >= 2 && line[line.len() - 2] != ' ' && rest.len() > 0 {
            rest.update(rest.len() - 1, rest.last().push(line.last()))
        } else {
            rest.push(seq![line.last()])
        }
    }
}

/// Split a line at spaces into its words.
pub fn split_args(line: &Vec<char>) -> (r: Vec<Vec<char>>)
    ensures
        r@.len() == words(line@).len(),
        forall|i: int| 0 <= i < r@.len() ==> #[trigger] r@[i]@ == words(line@)[i],
{
    let mut out: Vec<Vec<char>> = Vec::new();
    let mut i: usize = 0;
    while i < line.len()
        invariant
            0 <= i <= line@.len(),
            out@.len() == words(line@.subrange(0, i as int)).len(),
            forall|k: int| 0 <= k < out@.len() ==> #[trigger] out@[k]@ == words(line@.subrange(0, i as int))[k],
        decreases line.len() - i,
    {
        let c = line[i];
        let ghost pre = line@.subrange(0, i as int);
        let ghost cur = line@.subrange(0, i + 1);
        assert(cur.drop_last() =~= pre);
        if c == ' ' {
        } else if i >= 1 && line[i - 1] != ' ' && out.len() > 0 {
            let last = out.len() - 1;
            let mut w: Vec<char> = Vec::new();
            std::mem::swap(&mut w, &mut out[last]);
            w.push(c);
            std::mem::swap(&mut w, &mut out[last]);
        } else {
            let mut w: Vec<char> = Vec::new();
            w.push(c);
            out.push(w);
            assert(out@[out@.len() - 1]@ =~= seq![c]);
        }
        i = i + 1;
    }
    assert(line@.subrange(0, line@.len() as int) =~= line@);
    out
}

/// A shell command, with what the caller needs to run it.
#[derive(Clone, Copy, Debug)]
pub enum ShellCommand {
    Help,
    Clear,
    About,
    Echo,
    Dmesg,
    Stats,
    Meminfo,
    Devices,
    Ps,
    Linux,
    Uptime,
    Status,
    Fat32,
    Ls,
    Mkdir,
    Touch,
    Cat,
    Rm,
    Write,
    Run,
    Peek { addr: u64 },
    Poke { addr: u64, val: u8 },
    Exit,
    /// Wrong number of arguments: the usage line to print.
    Usage(&'static str),
    /// Arguments that do not parse: the message to print.
    Invalid(&'static str),
    Unknown,
}

/// Is `c` a hexadecimal digit? Its value.
pub open spec fn hex_digit(c: char) -> Option<int> {
    if '0' <= c && c <= '9' {
        Some(c as int - '0' as int)
    } else if 'a' <= c && c <= 'f' {
        Some(c as int - 'a' as int + 10)
    } else if 'A' <= c && c <= 'F' {
        Some(c as int - 'A' as int + 10)
    } else {
        None
    }
}

/// The value of a run of hexadecimal digits (None if any is not one).
pub open spec fn hex_digits_value(s: Seq<char>) -> Option<int>
    decreases s.len(),
{
    if s.len() == 0 {
        Some(0)
    } else {
        match (hex_digits_value(s.drop_last()), hex_digit(s.last())) {
            (Some(v), Some(d)) => Some(v * 16 + d),
            _ => None,
        }
    }
}

/// `s` without any number of leading "0x".
pub open spec fn strip_0x(s: Seq<char>) -> Seq<char>
    decreases s.len(),
{
    if s.len() >= 2 && s[0] == '0' && s[1] == 'x' {
        strip_0x(s.subrange(2, s.len() as int))
    } else {
        s
    }
}

/// A number in base 16 as an unsigned parse reads it: an optional '+',
/// then at least one digit; None when malformed.
pub open spec fn hex_number(s: Seq<char>) -> Option<int> {
    let d = if s.len() >= 1 && s[0] == '+' { s.drop_first() } else { s };
    if s.len() == 0 || d.len() == 0 {
        None
    } else {
        hex_digits_value(d)
    }
}

/// An argument of `peek`/`poke`: leading "0x"s dropped, then a
/// base-16 number not above `max`.
pub open spec fn hex_arg(s: Seq<char>, max: int) -> Option<int> {
    match hex_number(strip_0x(s)) {
        Some(v) => if 0 <= v <= max { Some(v) } else { None },
        None => None,
    }
}

fn digit_value(c: char) -> (r: Option<u64>)
    ensures
        match hex_digit(c) {
            Some(d) => r == Some(d as u64),
            None => r is None,
        },
{
    if c >= '0' && c <= '9' {
        Some((c as u32 - '0' as u32) as u64)
    } else if c >= 'a' && c <= 'f' {
        Some((c as u32 - 'a' as u32 + 10) as u64)
    } else if c >= 'A' && c <= 'F' {
        Some((c as u32 - 'A' as u32 + 10) as u64)
    } else {
        None
    }
}

proof fn lemma_hex_grows(s: Seq<char>, v: int)
    requires
        hex_digits_value(s) == Some(v),
    ensures
        v >= 0,
    decreases s.len(),
{
    if s.len() > 0 {
        let p = hex_digits_value(s.drop_last()).unwrap();
        lemma_hex_grows(s.drop_last(), p);
    }
}

/// Parse an argument as `hex_arg` says.
pub fn parse_hex(s: &Vec<char>, max: u64) -> (r: Option<u64>)
    ensures
        match hex_arg(s@, max as int) {
            Some(v) => r == Some(v as u64),
            None => r is None,
        },
{
    let mut start: usize = 0;
    assert(s@.subrange(0, s@.len() as int) =~= s@);
    while s.len() - start >= 2 && s[start] == '0' && s[start + 1] == 'x'
        invariant
            0 <= start <= s@.len(),
            strip_0x(s@) == strip_0x(s@.subrange(start as int, s@.len() as int)),
        decreases s.len() - start,
    {
        assert(s@.subrange(start as int, s@.len() as int).subrange(2, s@.len() - start) =~= s@.subrange(start + 2, s@.len() as int));
        start = start + 2;
    }
    let ghost t = s@.subrange(start as int, s@.len() as int);
    assert(strip_0x(t) == t);
    if start >= s.len() {
        return None;
    }
    let mut i = start;
    if s[start] == '+' {
        i = start + 1;
        if i >= s.len() {
            return None;
        }
    }
    let ghost d = s@.subrange(i as int, s@.len() as int);
    assert(d =~= (if t.len() >= 1 && t[0] == '+' { t.drop_first() } else { t }));
    assert(hex_arg(s@, max as int) == (match hex_digits_value(d) {
        Some(x) => if 0 <= x <= max { Some(x) } else { None },
        None => None,
    }));
    let mut v: u64 = 0;
    let mut k: usize = i;
    while k < s.len()
        invariant
            i <= k <= s@.len(),
            i < s@.len(),
            d == s@.subrange(i as int, s@.len() as int),
            hex_arg(s@, max as int) == (match hex_digits_value(d) {
                Some(x) => if 0 <= x <= max { Some(x) } else { None },
                None => None,
            }),
            hex_digits_value(s@.subrange(i as int, k as int)) == Some(v as int),
        decreases s.len() - k,
    {
        assert(s@.subrange(i as int, k + 1).drop_last() =~= s@.subrange(i as int, k as int));
        let dv = match digit_value(s[k]) {
            Some(x) => x,
            None => {
                proof {
                    lemma_hex_none_extends(s@, i as int, k + 1, s@.len() as int);
                }
                return None;
            },
        };
        if v > (u64::MAX - dv) / 16 {
            proof {
                lemma_hex_over(s@, i as int, k + 1, s@.len() as int, max as int);
            }
            return None;
        }
        v = v * 16 + dv;
        k = k + 1;
    }
    assert(s@.subrange(i as int, k as int) =~= d);
    if v > max {
        return None;
    }
    Some(v)
}

/// Once a prefix is malformed, so is every longer run.
proof fn lemma_hex_none_extends(s: Seq<char>, i: int, k: int, n: int)
    requires
        0 <= i <= k <= n <= s.len(),
        hex_digits_value(s.subrange(i, k)) is None,
    ensures
        hex_digits_value(s.subrange(i, n)) is None,
    decreases n - k,
{
    if n > k {
        lemma_hex_none_extends(s, i, k, n - 1);
        assert(s.subrange(i, n).drop_last() =~= s.subrange(i, n - 1));
    }
}

/// Once a prefix is over u64::MAX, every longer run is over `max`
/// or malformed.
proof fn lemma_hex_over(s: Seq<char>, i: int, k: int, n: int, max: int)
    requires
        0 <= i <= k <= n <= s.len(),
        max <= u64::MAX,
        match hex_digits_value(s.subrange(i, k)) {
            Some(v) => v > u64::MAX,
            None => true,
        },
    ensures
        match hex_digits_value(s.subrange(i, n)) {
            Some(v) => v > max,
            None => true,
        },
    decreases n - k,
{
    if n > k {
        lemma_hex_over(s, i, k, n - 1, max);
        assert(s.subrange(i, n).drop_last() =~= s.subrange(i, n - 1));
        match hex_digits_value(s.subrange(i, n - 1)) {
            Some(p) => {
                lemma_hex_grows(s.subrange(i, n - 1), p);
            },
            None => {},
        }
    }
}

/// The command a non-empty list of words asks for.
pub open spec fn command_of(args: Seq<Seq<char>>) -> ShellCommand {
    let w = args[0];
    if w == seq!['h', 'e', 'l', 'p'] {
        ShellCommand::Help
    } else if w == seq!['c', 'l', 'e', 'a', 'r'] {
        ShellCommand::Clear
    } else if w == seq!['a', 'b', 'o', 'u', 't'] {
        ShellCommand::About
    } else if w == seq!['e', 'c', 'h', 'o'] {
        ShellCommand::Echo
    } else if w == seq!['d', 'm', 'e', 's', 'g'] {
        ShellCommand::Dmesg
    } else if w == seq!['s', 't', 'a', 't', 's'] {
        ShellCommand::Stats
    } else if w == seq!['m', 'e', 'm', 'i', 'n', 'f', 'o'] {
        ShellCommand::Meminfo
    } else if w == seq!['d', 'e', 'v', 'i', 'c', 'e', 's'] {
        ShellCommand::Devices
    } else if w == seq!['p', 's'] {
        ShellCommand::Ps
    } else if w == seq!['l', 'i', 'n', 'u', 'x'] {
        ShellCommand::Linux
    } else if w == seq!['u', 'p', 't', 'i', 'm', 'e'] {
        ShellCommand::Uptime
    } else if w == seq!['s', 't', 'a', 't', 'u', 's'] {
        ShellCommand::Status
    } else if w == seq!['f', 'a', 't', '3', '2'] {
        ShellCommand::Fat32
    } else if w == seq!['l', 's'] {
        ShellCommand::Ls
    } else if w == seq!['m', 'k', 'd', 'i', 'r'] {
        if args.len() < 2 { ShellCommand::Usage("Usage: mkdir <name>") } else { ShellCommand::Mkdir }
    } else if w == seq!['t', 'o', 'u', 'c', 'h'] {
        if args.len() < 2 { ShellCommand::Usage("Usage: touch <name>") } else { ShellCommand::Touch }
    } else if w == seq!['c', 'a', 't'] {
        if args.len() < 2 { ShellCommand::Usage("Usage: cat <file>") } else { ShellCommand::Cat }
    } else if w == seq!['r', 'm'] {
        if args.len() < 2 { ShellCommand::Usage("Usage: rm <file>") } else { ShellCommand::Rm }
    } else if w == seq!['w', 'r', 'i', 't', 'e'] {
        if args.len() < 3 { ShellCommand::Usage("Usage: write <file> <text>") } else { ShellCommand::Write }
    } else if w == seq!['r', 'u', 'n'] {
        if args.len() < 2 { ShellCommand::Usage("Usage: run <file.elf>") } else { ShellCommand::Run }
    } else if w == seq!['p', 'e', 'e', 'k'] {
        if args.len() == 2 {
            match hex_arg(args[1], u64::MAX as int) {
                Some(a) => ShellCommand::Peek { addr: a as u64 },
                None => ShellCommand::Invalid("Invalid address."),
            }
        } else {
            ShellCommand::Usage("Usage: peek <hex_address>")
        }
    } else if w == seq!['p', 'o', 'k', 'e'] {
        if args.len() == 3 {
            match (hex_arg(args[1], u64::MAX as int), hex_arg(args[2], u8::MAX as int)) {
                (Some(a), Some(v)) => ShellCommand::Poke { addr: a as u64, val: v as u8 },
                _ => ShellCommand::Invalid("Invalid args."),
            }
        } else {
            ShellCommand::Usage("Usage: poke <addr> <val>")
        }
    } else if w == seq!['e', 'x', 'i', 't'] {
        ShellCommand::Exit
    } else {
        ShellCommand::Unknown
    }
}

/// Is `w` the word `lit`?
fn word_is(w: &Vec<char>, lit: &[char]) -> (r: bool)
    ensures
        r == (w@ == lit@),
{
    if w.len() != lit.len() {
        return false;
    }
    let mut i: usize = 0;
    while i < w.len()
        invariant
            w@.len() == lit@.len(),
            0 <= i <= w@.len(),
            forall|k: int| 0 <= k < i ==> w@[k] == lit@[k],
        decreases w.len() - i,
    {
        if w[i] != lit[i] {
            return false;
        }
        i = i + 1;
    }
    assert(w@ =~= lit@);
    true
}

/// What a command line's words ask for: the command, the usage line when
/// its arguments are missing, or the message when they do not parse.
pub fn parse_command(args: &Vec<Vec<char>>) -> (r: ShellCommand)
    requires
        args@.len() >= 1,
    ensures
        r == command_of(Seq::new(args@.len(), |i: int| args@[i]@)),
{
    let ghost a = Seq::new(args@.len(), |i: int| args@[i]@);
    let w = &args[0];
    assert(w@ == a[0]);
    let lit: [char; 4] = ['h', 'e', 'l', 'p'];
    if word_is(w, lit.as_slice()) {
        assert(lit@ =~= seq!['h', 'e', 'l', 'p']);
        return ShellCommand::Help;
    }
    assert(lit@ =~= seq!['h', 'e', 'l', 'p']);
    let lit: [char; 5] = ['c', 'l', 'e', 'a', 'r'];
    if word_is(w, lit.as_slice()) {
        assert(lit@ =~= seq!['c', 'l', 'e', 'a', 'r']);
        return ShellCommand::Clear;
    }
    assert(lit@ =~= seq!['c', 'l', 'e', 'a', 'r']);
    let lit: [char; 5] = ['a', 'b', 'o', 'u', 't'];
    if word_is(w, lit.as_slice()) {
        assert(lit@ =~= seq!['a', 'b', 'o', 'u', 't']);
        return ShellCommand::About;
    }
    assert(lit@ =~= seq!['a', 'b', 'o', 'u', 't']);
    let lit: [char; 4] = ['e', 'c', 'h', 'o'];
    if word_is(w, lit.as_slice()) {
        assert(lit@ =~= seq!['e', 'c', 'h', 'o']);
        return ShellCommand::Echo;
    }
    assert(lit@ =~= seq!['e', 'c', 'h', 'o']);
    let lit: [char; 5] = ['d', 'm', 'e', 's', 'g'];
    if word_is(w, lit.as_slice()) {
        assert(lit@ =~= seq!['d', 'm', 'e', 's', 'g']);
        return ShellCommand::Dmesg;
    }
    assert(lit@ =~= seq!['d', 'm', 'e', 's', 'g']);
    let lit: [char; 5] = ['s', 't', 'a', 't', 's'];
    if word_is(w, lit.as_slice()) {
        assert(lit@ =~= seq!['s', 't', 'a', 't', 's']);
        return ShellCommand::Stats;
    }
    assert(lit@ =~= seq!['s', 't', 'a', 't', 's']);
    let lit: [char; 7] = ['m', 'e', 'm', 'i', 'n', 'f', 'o'];
    if word_is(w, lit.as_slice()) {
        assert(lit@ =~= seq!['m', 'e', 'm', 'i', 'n', 'f', 'o']);
        return ShellCommand::Meminfo;
    }
    assert(lit@ =~= seq!['m', 'e', 'm', 'i', 'n', 'f', 'o']);
    let lit: [char; 7] = ['d', 'e', 'v', 'i', 'c', 'e', 's'];
    if word_is(w, lit.as_slice()) {
        assert(lit@ =~= seq!['d', 'e', 'v', 'i', 'c', 'e', 's']);
        return ShellCommand::Devices;
    }
    assert(lit@ =~= seq!['d', 'e', 'v', 'i', 'c', 'e', 's']);
    let lit: [char; 2] = ['p', 's'];
    if word_is(w, lit.as_slice()) {
        assert(lit@ =~= seq!['p', 's']);
        return ShellCommand::Ps;
    }
    assert(lit@ =~= seq!['p', 's']);
    let lit: [char; 5] = ['l', 'i', 'n', 'u', 'x'];
    if word_is(w, lit.as_slice()) {
        assert(lit@ =~= seq!['l', 'i', 'n', 'u', 'x']);
        return ShellCommand::Linux;
    }
    assert(lit@ =~= seq!['l', 'i', 'n', 'u', 'x']);
    let lit: [char; 6] = ['u', 'p', 't', 'i', 'm', 'e'];
    if word_is(w, lit.as_slice()) {
        assert(lit@ =~= seq!['u', 'p', 't', 'i', 'm', 'e']);
        return ShellCommand::Uptime;
    }
    assert(lit@ =~= seq!['u', 'p', 't', 'i', 'm', 'e']);
    let lit: [char; 6] = ['s', 't', 'a', 't', 'u', 's'];
    if word_is(w, lit.as_slice()) {
        assert(lit@ =~= seq!['s', 't', 'a', 't', 'u', 's']);
        return ShellCommand::Status;
    }
    assert(lit@ =~= seq!['s', 't', 'a', 't', 'u', 's']);
    let lit: [char; 5] = ['f', 'a', 't', '3', '2'];
    if word_is(w, lit.as_slice()) {
        assert(lit@ =~= seq!['f', 'a', 't', '3', '2']);
        return ShellCommand::Fat32;
    }
    assert(lit@ =~= seq!['f', 'a', 't', '3', '2']);
    let lit: [char; 2] = ['l', 's'];
    if word_is(w, lit.as_slice()) {
        assert(lit@ =~= seq!['l', 's']);
        return ShellCommand::Ls;
    }
    assert(lit@ =~= seq!['l', 's']);
    let lit: [char; 5] = ['m', 'k', 'd', 'i', 'r'];
    if word_is(w, lit.as_slice()) {
        assert(lit@ =~= seq!['m', 'k', 'd', 'i', 'r']);
        if args.len() < 2 {
            return ShellCommand::Usage("Usage: mkdir <name>");
        }
        return ShellCommand::Mkdir;
    }
    assert(lit@ =~= seq!['m', 'k', 'd', 'i', 'r']);
    let lit: [char; 5] = ['t', 'o', 'u', 'c', 'h'];
    if word_is(w, lit.as_slice()) {
        assert(lit@ =~= seq!['t', 'o', 'u', 'c', 'h']);
        if args.len() < 2 {
            return ShellCommand::Usage("Usage: touch <name>");
        }
        return ShellCommand::Touch;
    }
    assert(lit@ =~= seq!['t', 'o', 'u', 'c', 'h']);
    let lit: [char; 3] = ['c', 'a', 't'];
    if word_is(w, lit.as_slice()) {
        assert(lit@ =~= seq!['c', 'a', 't']);
        if args.len() < 2 {
            return ShellCommand::Usage("Usage: cat <file>");
        }
        return ShellCommand::Cat;
    }
    assert(lit@ =~= seq!['c', 'a', 't']);
    let lit: [char; 2] = ['r', 'm'];
    if word_is(w, lit.as_slice()) {
        assert(lit@ =~= seq!['r', 'm']);
        if args.len() < 2 {
            return ShellCommand::Usage("Usage: rm <file>");
        }
        return ShellCommand::Rm;
    }
    assert(lit@ =~= seq!['r', 'm']);
    let lit: [char; 5] = ['w', 'r', 'i', 't', 'e'];
    if word_is(w, lit.as_slice()) {
        assert(lit@ =~= seq!['w', 'r', 'i', 't', 'e']);
        if args.len() < 3 {
            return ShellCommand::Usage("Usage: write <file> <text>");
        }
        return ShellCommand::Write;
    }
    assert(lit@ =~= seq!['w', 'r', 'i', 't', 'e']);
    let lit: [char; 3] = ['r', 'u', 'n'];
    if word_is(w, lit.as_slice()) {
        assert(lit@ =~= seq!['r', 'u', 'n']);
        if args.len() < 2 {
            return ShellCommand::Usage("Usage: run <file.elf>");
        }
        return ShellCommand::Run;
    }
    assert(lit@ =~= seq!['r', 'u', 'n']);
    let lit: [char; 4] = ['p', 'e', 'e', 'k'];
    if word_is(w, lit.as_slice()) {
        assert(lit@ =~= seq!['p', 'e', 'e', 'k']);
        if args.len() == 2 {
            assert(args[1]@ == a[1]);
            return match parse_hex(&args[1], u64::MAX) {
                Some(addr) => ShellCommand::Peek { addr },
                None => ShellCommand::Invalid("Invalid address."),
            };
        }
        return ShellCommand::Usage("Usage: peek <hex_address>");
    }
    assert(lit@ =~= seq!['p', 'e', 'e', 'k']);
    let lit: [char; 4] = ['p', 'o', 'k', 'e'];
    if word_is(w, lit.as_slice()) {
        assert(lit@ =~= seq!['p', 'o', 'k', 'e']);
        if args.len() == 3 {
            assert(args[1]@ == a[1]);
            assert(args[2]@ == a[2]);
            let addr = parse_hex(&args[1], u64::MAX);
            let val = parse_hex(&args[2], 0xFF);
            return match (addr, val) {
                (Some(addr), Some(v)) => {
                    proof {
                        let hv = hex_arg(a[2], u8::MAX as int);
                        let x = hv->Some_0;
                        assert(0 <= x <= 255 && v == x as u64);
                        assert(v < 256);
                        assert((v as u8) as int == v as int) by (bit_vector)
                            requires
                                v < 256,
                        ;
                        assert((x as u8) as int == x);
                    }
                    ShellCommand::Poke { addr, val: v as u8 }
                },
                _ => ShellCommand::Invalid("Invalid args."),
            };
        }
        return ShellCommand::Usage("Usage: poke <addr> <val>");
    }
    assert(lit@ =~= seq!['p', 'o', 'k', 'e']);
    let lit: [char; 4] = ['e', 'x', 'i', 't'];
    if word_is(w, lit.as_slice()) {
        assert(lit@ =~= seq!['e', 'x', 'i', 't']);
        return ShellCommand::Exit;
    }
    assert(lit@ =~= seq!['e', 'x', 'i', 't']);
    ShellCommand::Unknown
}

spec fn final_out_eq(out: Seq<char>, o: Seq<char>, input: Seq<char>, cursor: int) -> bool {
    out =~= o + clear_echo(input, cursor)
}

/// What `cat <name>` finds on the FAT32 volume: the bytes read, or why
/// nothing was shown.
#[derive(Clone, Copy, PartialEq, Eq, Debug)]
pub enum CatOutcome {
    /// This many bytes of the file were read into the buffer.
    Read(usize),
    /// Reading the file failed.
    ReadFailed(&'static str),
    /// The name is a directory (or an entry without data).
    IsDirectory,
    /// No entry has that name.
    Missing,
    /// The root directory could not be listed.
    ListFailed(&'static str),
}

/// Largest file that `cat` shows.
pub const CAT_BUF_SIZE: usize = 8192;

/// What `cat` does on volume `fs` (disk contents `img`, `total` sectors)
/// for the name `name` with a buffer of `buf_len` bytes: the entry is
/// looked up in the root directory without regard to ASCII case, and a
/// file with data is read (at most its size, at most the buffer).
pub open spec fn cat_spec(fs: Fat32Fs, img: Seq<u8>, total: int, name: Seq<char>, buf_len: int) -> CatOutcome {
    match dir_list(fs, img, total, fs.root_cluster as int, 0).unwrap() {
        Err(e) => CatOutcome::ListFailed(e),
        Ok(v) => match first_named(v, name, 0) {
            None => CatOutcome::Missing,
            Some(e) => if e.3 || e.1 < 2 {
                CatOutcome::IsDirectory
            } else {
                let want = if buf_len < e.2 { buf_len } else { e.2 as int };
                let o = file_read(fs, img, total, e.1 as int, want).unwrap();
                match o.1 {
                    None => CatOutcome::Read(o.0.len() as usize),
                    Some(err) => CatOutcome::ReadFailed(err),
                }
            },
        },
    }
}

/// Whether `cat` can be computed within 32-bit sector numbers.
pub open spec fn cat_computable(fs: Fat32Fs, img: Seq<u8>, total: int, name: Seq<char>, buf_len: int) -> bool {
    &&& dir_list(fs, img, total, fs.root_cluster as int, 0) is Some
    &&& match dir_list(fs, img, total, fs.root_cluster as int, 0).unwrap() {
        Ok(v) => match first_named(v, name, 0) {
            Some(e) => !e.3 && e.1 >= 2 ==> file_read(fs, img, total, e.1 as int, if buf_len < e.2 { buf_len } else { e.2 as int }) is Some,
            None => true,
        },
        Err(_) => true,
    }
}

/// `cat <name>`: find the entry in the root directory of `fs` and read the
/// file into `buf`.
pub fn cat_file(fs: &Fat32Fs, disk: &IdeDisk, name: &str, buf: &mut [u8]) -> (r: CatOutcome)
    requires
        fs.wf(),
        disk.wf(),
        cat_computable(*fs, disk.contents(), disk.total_view() as int, name@, old(buf)@.len() as int),
    ensures
        r == cat_spec(*fs, disk.contents(), disk.total_view() as int, name@, old(buf)@.len() as int),
        final(buf)@.len() == old(buf)@.len(),
        r matches CatOutcome::Read(n) ==> final(buf)@.subrange(0, n as int) == ({
            let v = dir_list(*fs, disk.contents(), disk.total_view() as int, fs.root_cluster as int, 0).unwrap()->Ok_0;
            let e = first_named(v, name@, 0)->Some_0;
            let want = if old(buf)@.len() < e.2 { old(buf)@.len() as int } else { e.2 as int };
            file_read(*fs, disk.contents(), disk.total_view() as int, e.1 as int, want).unwrap().0
        }),
{
    let entries = match fs.readdir(disk, fs.root_cluster()) {
        Ok(v) => v,
        Err(e) => {
            return CatOutcome::ListFailed(e);
        },
    };
    let k = match find_named(&entries, name) {
        Some(k) => k,
        None => {
            return CatOutcome::Missing;
        },
    };
    let is_dir = entries[k].is_dir;
    let cluster = entries[k].cluster;
    let size = entries[k].size;
    if is_dir || cluster < 2 {
        return CatOutcome::IsDirectory;
    }
    match fs.read_file_data(disk, cluster, size, buf) {
        Ok(n) => CatOutcome::Read(n),
        Err(e) => CatOutcome::ReadFailed(e),
    }
}

/// The path buffer `run <path>` passes to execve: the first 255 bytes of
/// the path, then a NUL, then zeros.
pub fn run_path_buf(path: &str) -> (r: [u8; 256])
    ensures
        ({
            let b = path.spec_bytes();
            let cl = if b.len() < 255 { b.len() as int } else { 255 };
            &&& forall|i: int| 0 <= i < cl ==> #[trigger] r@[i] == b[i]
            &&& forall|i: int| cl <= i < 256 ==> #[trigger] r@[i] == 0
        }),
{
    let pb = path.as_bytes();
    let cl = if pb.len() < 255 { pb.len() } else { 255 };
    let mut buf = [0u8; 256];
    let mut i: usize = 0;
    while i < cl
        invariant
            0 <= i <= cl <= 255,
            cl <= pb@.len(),
            pb@ == path.spec_bytes(),
            forall|k: int| 0 <= k < i ==> #[trigger] buf@[k] == pb@[k],
            forall|k: int| i <= k < 256 ==> #[trigger] buf@[k] == 0,
        decreases cl - i,
    {
        buf[i] = pb[i];
        i = i + 1;
    }
    buf
}

/// What `write <name> <text>` did on the FAT32 volume.
#[derive(Clone, Copy, PartialEq, Eq, Debug)]
pub enum WriteOutcome {
    /// The file existed; this many bytes were written at its start.
    Wrote(usize),
    /// The file was created and this many bytes written to it.
    Created(usize),
    /// Creating or writing failed.
    Failed(&'static str),
}

/// The root entry named `name` (ASCII letters without case) that `write`
/// writes to, if the root can be listed and holds one.
pub open spec fn write_target(fs: Fat32Fs, img: Seq<u8>, total: int, name: Seq<char>) -> Option<crate::fs::fat32_dir::EntryView> {
    match dir_list(fs, img, total, fs.root_cluster as int, 0).unwrap() {
        Ok(v) => first_named(v, name, 0),
        Err(_) => None,
    }
}

/// The outcome of creating the entry `name` in the root (with enough walk
/// to finish it).
pub open spec fn create_result(fs: Fat32Fs, img: Seq<u8>, total: int, name: Seq<u8>) -> (Seq<u8>, Result<u32, &'static str>) {
    let nm = short_8_3(name).0;
    let ext = short_8_3(name).1;
    create_outcome(fs, img, total, fs.root_cluster as int, nm, ext, false,
        choose|k: nat| #[trigger] create_outcome(fs, img, total, fs.root_cluster as int, nm, ext, false, k) is Some).unwrap()
}

/// What `write` does to the disk contents `img` and what it reports:
/// an existing file has `text` written at its start; otherwise the file
/// is created in the root and `text` written to its first cluster.
pub open spec fn write_spec(fs: Fat32Fs, img: Seq<u8>, total: int, name: Seq<char>, name_bytes: Seq<u8>, text: Seq<u8>)
    -> (Seq<u8>, WriteOutcome) {
    match write_target(fs, img, total, name) {
        Some(e) => {
            let w = fat_write(fs, img, total, e.1 as int, 0, text).unwrap();
            (w.0, match w.1 { Ok(n) => WriteOutcome::Wrote(n), Err(er) => WriteOutcome::Failed(er) })
        },
        None => {
            let c = create_result(fs, img, total, name_bytes);
            match c.1 {
                Err(er) => (c.0, WriteOutcome::Failed(er)),
                Ok(cluster) => {
                    let w = fat_write(fs, c.0, total, cluster as int, 0, text).unwrap();
                    (w.0, match w.1 { Ok(n) => WriteOutcome::Created(n), Err(er) => WriteOutcome::Failed(er) })
                },
            }
        },
    }
}

/// Whether `write` can be computed within 32-bit sector numbers.
pub open spec fn write_computable(fs: Fat32Fs, img: Seq<u8>, total: int, name: Seq<char>, name_bytes: Seq<u8>, text: Seq<u8>) -> bool {
    &&& dir_list(fs, img, total, fs.root_cluster as int, 0) is Some
    &&& match write_target(fs, img, total, name) {
        Some(e) => fat_write(fs, img, total, e.1 as int, 0, text) is Some,
        None => {
            &&& exists|k: nat| #[trigger] create_outcome(fs, img, total, fs.root_cluster as int, short_8_3(name_bytes).0,
                short_8_3(name_bytes).1, false, k) is Some
            &&& (create_result(fs, img, total, name_bytes).1 matches Ok(cluster)
                ==> fat_write(fs, create_result(fs, img, total, name_bytes).0, total, cluster as int, 0, text) is Some)
        },
    }
}

/// `write <name> <text>`: write `text` at the start of the root file
/// `name` on `fs`, creating the file first when the root has none of that
/// name.
pub fn write_file(fs: &Fat32Fs, disk: &mut IdeDisk, name: &str, text: &[u8]) -> (r: WriteOutcome)
    requires
        fs.wf(),
        old(disk).wf(),
        write_computable(*fs, old(disk).contents(), old(disk).total_view() as int, name@, name.spec_bytes(), text@),
    ensures
        final(disk).wf(),
        final(disk).total_view() == old(disk).total_view(),
        (final(disk).contents(), r) == write_spec(*fs, old(disk).contents(), old(disk).total_view() as int, name@,
            name.spec_bytes(), text@),
{
    let ghost img = disk.contents();
    let ghost total = disk.total_view() as int;
    let existing = match fs.readdir(disk, fs.root_cluster()) {
        Ok(entries) => match find_named(&entries, name) {
            Some(k) => Some(entries[k].cluster),
            None => None,
        },
        Err(_) => None,
    };
    match existing {
        Some(cluster) => match fs.write_file_data(disk, cluster, 0, text) {
            Ok(n) => WriteOutcome::Wrote(n),
            Err(e) => WriteOutcome::Failed(e),
        },
        None => {
            let ghost k = choose|k: nat| #[trigger] create_outcome(*fs, img, total, fs.root_cluster as int,
                short_8_3(name.spec_bytes()).0, short_8_3(name.spec_bytes()).1, false, k) is Some;
            match fs.create_file_entry(disk, fs.root_cluster(), name, false) {
                Ok(cluster) => {
                    proof {
                        assert(create_result(*fs, img, total, name.spec_bytes()) == (disk.contents(), Ok::<u32, &'static str>(cluster)));
                    }
                    match fs.write_file_data(disk, cluster, 0, text) {
                        Ok(n) => WriteOutcome::Created(n),
                        Err(e) => WriteOutcome::Failed(e),
                    }
                },
                Err(e) => WriteOutcome::Failed(e),
            }
        },
    }
}

/// The words `ws` joined with one space between each two.
pub open spec fn joined(ws: Seq<Seq<char>>) -> Seq<char>
    decreases ws.len(),
{
    if ws.len() == 0 {
        Seq::empty()
    } else if ws.len() == 1 {
        ws[0]
    } else {
        joined(ws.drop_last()) + seq![' '] + ws.last()
    }
}

/// The words of `args` from the `from`-th on, joined with single spaces:
/// the text `echo` prints (from 1) and `write` stores (from 2).
pub fn join_words(args: &Vec<Vec<char>>, from: usize) -> (r: Vec<char>)
    ensures
        r@ == joined(Seq::new(args@.len(), |i: int| args@[i]@).subrange(
            if from < args@.len() { from as int } else { args@.len() as int },
            args@.len() as int,
        )),
{
    let ghost a = Seq::new(args@.len(), |i: int| args@[i]@);
    let start = if from < args.len() { from } else { args.len() };
    let mut out: Vec<char> = Vec::new();
    let mut k = start;
    while k < args.len()
        invariant
            start <= k <= args@.len(),
            a == Seq::new(args@.len(), |i: int| args@[i]@),
            out@ == joined(a.subrange(start as int, k as int)),
        decreases args.len() - k,
    {
        if k > start {
            out.push(' ');
        }
        let w = &args[k];
        let mut j: usize = 0;
        let ghost before = out@;
        while j < w.len()
            invariant
                0 <= j <= w@.len(),
                out@ == before + w@.subrange(0, j as int),
            decreases w.len() - j,
        {
            out.push(w[j]);
            proof {
                assert(w@.subrange(0, j + 1) =~= w@.subrange(0, j as int).push(w@[j as int]));
            }
            j = j + 1;
        }
        proof {
            let ws = a.subrange(start as int, k + 1);
            assert(w@.subrange(0, j as int) =~= w@);
            assert(ws.drop_last() =~= a.subrange(start as int, k as int));
            assert(ws.last() == args@[k as int]@);
            if k == start {
                assert(ws.len() == 1);
                assert(out@ =~= joined(ws));
            } else {
                assert(out@ =~= joined(ws));
            }
        }
        k = k + 1;
    }
    out
}

} // verus!
