//! Virtual TTYs: a pair of byte streams, like a pseudo-terminal, with a line
//! discipline. A write to the mother interface feeds stdin, a read from it
//! drains stdout; a write to the child interface feeds stdout, a read from it
//! drains stdin.
use crate::errors::ErrorStatus;
use crate::thread::Tid;
use crate::wait_queue::{wake_split, WaitQueue, WakeFilter};
use vstd::prelude::*;

verus! {

/// The modes of a TTY.
#[derive(Clone, Copy, Debug, PartialEq, Eq, Structural)]
pub struct TTYFlags(pub u16);

impl TTYFlags {
    /// Stdin is echoed to stdout.
    pub const ECHO: u16 = 1;
    /// Stdin is read a line at a time, and the erase character erases.
    pub const CANONICAL: u16 = 2;
    /// An erased character is also erased from stdout, when echoing in canonical mode.
    pub const ECHO_ERASE: u16 = 4;

    /// Whether every bit of `bits` is set.
    pub fn contains(&self, bits: u16) -> (r: bool)
        ensures
            r == (self.0 & bits == bits),
    {
        self.0 & bits == bits
    }
}

/// The erase character.
pub const ERASE: u8 = 0x7F;
/// A line feed.
pub const NEWLINE: u8 = 0x0A;

/// Whether `c` is a control character or a space.
pub open spec fn is_ctrl(c: u8) -> bool {
    c <= 0x20 || c == 0x7F
}

/// Whether `c` is a control character or a space.
pub fn ascii_is_ctrl(c: u8) -> (r: bool)
    ensures
        r == is_ctrl(c),
{
    c <= 0x20 || c == 0x7F
}

/// What is echoed when a character is erased with erase echoing on:
/// backspace, space, backspace.
pub open spec fn erase_echo() -> Seq<u8> {
    seq![0x08u8, 0x20, 0x08]
}

/// What is echoed when a character is erased with erase echoing off: `^H`.
pub open spec fn caret_h() -> Seq<u8> {
    seq![0x5Eu8, 0x48]
}

/// The stdin, stdout and count of complete lines of a TTY after the byte `b`
/// is written to stdin in mode `flags`: in canonical mode the erase
/// character takes back the last character of the current line, if any, and
/// echoes an erasure; any other byte is added and echoed.
pub open spec fn stdin_step(st: (Seq<u8>, Seq<u8>, int), b: u8, flags: u16) -> (Seq<u8>, Seq<u8>, int) {
    let (inp, out, nl) = st;
    let echo = flags & TTYFlags::ECHO == TTYFlags::ECHO;
    let canonical = flags & TTYFlags::CANONICAL == TTYFlags::CANONICAL;
    let echo_erase = flags & TTYFlags::ECHO_ERASE == TTYFlags::ECHO_ERASE;
    if b == ERASE && canonical {
        if inp.len() == 0 || inp.last() == NEWLINE {
            st
        } else {
            let c = inp.last();
            let out2 = if !echo {
                out
            } else if echo_erase {
                if is_ctrl(c) { out + erase_echo() + erase_echo() } else { out + erase_echo() }
            } else {
                out + caret_h()
            };
            (inp.drop_last(), out2, nl)
        }
    } else {
        (inp.push(b), if echo { out.push(b) } else { out }, if b == NEWLINE { nl + 1 } else { nl })
    }
}

/// The state after the bytes `s` are written to stdin one after another.
pub open spec fn stdin_writes(st: (Seq<u8>, Seq<u8>, int), s: Seq<u8>, flags: u16) -> (Seq<u8>, Seq<u8>, int)
    decreases s.len(),
{
    if s.len() == 0 {
        st
    } else {
        stdin_step(stdin_writes(st, s.drop_last(), flags), s.last(), flags)
    }
}

/// The index of the first line feed of `s`, if any.
pub open spec fn first_newline(s: Seq<u8>, i: int) -> Option<int>
    decreases s.len() - i,
{
    if i < 0 || i >= s.len() {
        None
    } else if s[i] == NEWLINE {
        Some(i)
    } else {
        first_newline(s, i + 1)
    }
}

proof fn lemma_first_newline_range(s: Seq<u8>, i: int)
    requires
        0 <= i,
    ensures
        first_newline(s, i) matches Some(p) ==> i <= p < s.len() && s[p] == NEWLINE,
    decreases s.len() - i,
{
    if i < s.len() && s[i] != NEWLINE {
        lemma_first_newline_range(s, i + 1);
    }
}

/// The reason a reader waits on a TTY.
pub const WAIT_CANONICAL_READ: u64 = 0;
/// The reason a raw reader waits on a TTY.
pub const WAIT_RAW_READ: u64 = 1;

/// What a write to stdin asks of the kernel: the readers to wake, and
/// whether data became available on the mother's and on the child's side.
pub struct StdinWrite {
    pub woken: Vec<(Tid, u64)>,
    pub stdout_available: bool,
    pub stdin_available: bool,
}

/// The outcome of a read from stdin.
pub enum StdinRead {
    /// No data yet: wait on the TTY's queue, then read again.
    Wait,
    /// The bytes read, and whether stdin has no more data to offer.
    Read { data: Vec<u8>, drained: bool },
}

/// A virtual TTY.
pub struct VirtualTTY {
    pub stdout: Vec<u8>,
    pub stdin: Vec<u8>,
    pub newlines_count: usize,
    pub flags: TTYFlags,
    pub wait_queue: WaitQueue,
}

impl VirtualTTY {
    /// Whether the TTY is in canonical mode.
    pub open spec fn canonical(&self) -> bool {
        self.flags.0 & TTYFlags::CANONICAL == TTYFlags::CANONICAL
    }

    /// An empty TTY, canonical and echoing.
    pub fn new() -> (r: Self)
        ensures
            r.stdout@.len() == 0,
            r.stdin@.len() == 0,
            r.newlines_count == 0,
            r.flags.0 == TTYFlags::CANONICAL | TTYFlags::ECHO,
            r.wait_queue.view().len() == 0,
    {
        VirtualTTY {
            stdout: Vec::new(),
            stdin: Vec::new(),
            newlines_count: 0,
            flags: TTYFlags(TTYFlags::CANONICAL | TTYFlags::ECHO),
            wait_queue: WaitQueue::new(),
        }
    }

    /// Writes `s` to stdout; `true` when data became available to the mother.
    pub fn write_stdout(&mut self, s: &[u8]) -> (r: bool)
        ensures
            final(self).stdout@ == old(self).stdout@ + s@,
            r == (old(self).stdout@.len() == 0 && s@.len() > 0),
            final(self).stdin == old(self).stdin,
            final(self).newlines_count == old(self).newlines_count,
            final(self).flags == old(self).flags,
            final(self).wait_queue == old(self).wait_queue,
    {
        let was_empty = self.stdout.len() == 0;
        let mut i: usize = 0;
        while i < s.len()
            invariant
                0 <= i <= s@.len(),
                self.stdout@ == old(self).stdout@ + s@.subrange(0, i as int),
                self.stdin == old(self).stdin,
                self.newlines_count == old(self).newlines_count,
                self.flags == old(self).flags,
                self.wait_queue == old(self).wait_queue,
            decreases s@.len() - i,
        {
            self.stdout.push(s[i]);
            i = i + 1;
            assert(self.stdout@ =~= old(self).stdout@ + s@.subrange(0, i as int));
        }
        assert(s@.subrange(0, s@.len() as int) =~= s@);
        was_empty && s.len() > 0
    }

    fn push_stdout(&mut self, b: u8)
        ensures
            final(self).stdout@ == old(self).stdout@.push(b),
            final(self).stdin == old(self).stdin,
            final(self).newlines_count == old(self).newlines_count,
            final(self).flags == old(self).flags,
            final(self).wait_queue == old(self).wait_queue,
    {
        self.stdout.push(b);
    }

    fn echo_erase(&mut self)
        ensures
            final(self).stdout@ == old(self).stdout@ + erase_echo(),
            final(self).stdin == old(self).stdin,
            final(self).newlines_count == old(self).newlines_count,
            final(self).flags == old(self).flags,
            final(self).wait_queue == old(self).wait_queue,
    {
        self.push_stdout(0x08);
        self.push_stdout(0x20);
        self.push_stdout(0x08);
        assert(self.stdout@ =~= old(self).stdout@ + erase_echo());
    }

    /// Writes `s` to stdin through the line discipline (see [`stdin_step`]),
    /// then wakes the readers when a line (canonical mode) or any data (raw
    /// mode) is there.
    pub fn write_stdin(&mut self, s: &[u8]) -> (r: StdinWrite)
        requires
            old(self).newlines_count + s@.len() <= usize::MAX,
        ensures
            ({
                let st = stdin_writes(
                    (old(self).stdin@, old(self).stdout@, old(self).newlines_count as int),
                    s@,
                    old(self).flags.0,
                );
                let canonical = old(self).canonical();
                let wake = if canonical { st.2 > 0 } else { st.0.len() > 0 };
                let w = wake_split(old(self).wait_queue.view(), WakeFilter::Any, old(self).wait_queue.view().len());
                &&& final(self).stdin@ == st.0
                &&& final(self).stdout@ == st.1
                &&& final(self).newlines_count == st.2
                &&& final(self).flags == old(self).flags
                &&& (if wake {
                    final(self).wait_queue.view() == w.0 && r.woken@ == w.1
                } else {
                    final(self).wait_queue.view() == old(self).wait_queue.view() && r.woken@.len() == 0
                })
                &&& r.stdout_available == (old(self).stdout@.len() == 0 && st.1.len() > 0)
                &&& r.stdin_available == (if canonical {
                    old(self).newlines_count == 0 && st.2 > 0
                } else {
                    old(self).stdin@.len() == 0
                })
            }),
    {
        let flags = self.flags;
        let echo = flags.contains(TTYFlags::ECHO);
        let canonical = flags.contains(TTYFlags::CANONICAL);
        let echo_erase = flags.contains(TTYFlags::ECHO_ERASE);
        let newlines_count_was = self.newlines_count;
        let stdin_had = self.stdin.len();
        let stdout_was_empty = self.stdout.len() == 0;
        let ghost st0 = (old(self).stdin@, old(self).stdout@, old(self).newlines_count as int);
        let mut i: usize = 0;
        while i < s.len()
            invariant
                0 <= i <= s@.len(),
                flags == old(self).flags,
                self.flags == flags,
                echo == (flags.0 & TTYFlags::ECHO == TTYFlags::ECHO),
                canonical == (flags.0 & TTYFlags::CANONICAL == TTYFlags::CANONICAL),
                echo_erase == (flags.0 & TTYFlags::ECHO_ERASE == TTYFlags::ECHO_ERASE),
                (self.stdin@, self.stdout@, self.newlines_count as int) == stdin_writes(st0, s@.subrange(0, i as int), flags.0),
                self.newlines_count <= old(self).newlines_count + i,
                old(self).newlines_count + s@.len() <= usize::MAX,
                self.wait_queue == old(self).wait_queue,
            decreases s@.len() - i,
        {
            let b = s[i];
            proof {
                let t = s@.subrange(0, i as int + 1);
                assert(t.drop_last() =~= s@.subrange(0, i as int));
                assert(t.last() == b);
            }
            if b == ERASE && canonical {
                let len = self.stdin.len();
                if len == 0 || self.stdin[len - 1] == NEWLINE {
                } else {
                    let c = self.stdin.pop().unwrap();
                    if echo {
                        if echo_erase {
                            self.echo_erase();
                            if ascii_is_ctrl(c) {
                                self.echo_erase();
                            }
                        } else {
                            self.push_stdout(0x5E);
                            self.push_stdout(0x48);
                        }
                    }
                }
            } else {
                self.stdin.push(b);
                if echo {
                    self.push_stdout(b);
                }
                if b == NEWLINE {
                    self.newlines_count = self.newlines_count + 1;
                }
            }
            i = i + 1;
            proof {
                let ghost prev = stdin_writes(st0, s@.subrange(0, i as int - 1), flags.0);
                assert(self.stdout@ =~= stdin_step(prev, b, flags.0).1);
                assert(self.stdin@ =~= stdin_step(prev, b, flags.0).0);
            }
        }
        assert(s@.subrange(0, s@.len() as int) =~= s@);
        let wake = if canonical {
            self.newlines_count > 0
        } else {
            self.stdin.len() > 0
        };
        let woken = if wake {
            self.wait_queue.wake_on_condition(WakeFilter::Any)
        } else {
            Vec::new()
        };
        let stdin_available = if canonical {
            newlines_count_was == 0 && self.newlines_count > 0
        } else {
            stdin_had == 0
        };
        StdinWrite { woken, stdout_available: stdout_was_empty && self.stdout.len() > 0, stdin_available }
    }

    /// Reads at most `buf_len` bytes from the front of stdout; also whether
    /// stdout is then empty.
    pub fn read_stdout(&mut self, buf_len: usize) -> (r: (Vec<u8>, bool))
        ensures
            ({
                let n = if buf_len < old(self).stdout@.len() { buf_len as int } else { old(self).stdout@.len() as int };
                &&& r.0@ == old(self).stdout@.subrange(0, n)
                &&& final(self).stdout@ == old(self).stdout@.subrange(n, old(self).stdout@.len() as int)
                &&& r.1 == (final(self).stdout@.len() == 0)
            }),
            final(self).stdin == old(self).stdin,
            final(self).newlines_count == old(self).newlines_count,
            final(self).flags == old(self).flags,
            final(self).wait_queue == old(self).wait_queue,
    {
        let len = self.stdout.len();
        let read_len = if buf_len < len {
            buf_len
        } else {
            len
        };
        let (data, rest) = split_front(&self.stdout, read_len);
        self.stdout = rest;
        let drained = self.stdout.len() == 0;
        (data, drained)
    }

    /// Reads at most `buf_len` bytes from stdin: in canonical mode at most
    /// the first line, once a whole line is there; in raw mode whatever is
    /// there, once anything is (at once for an empty buffer). Otherwise the
    /// reader must wait.
    pub fn read_stdin(&mut self, buf_len: usize) -> (r: StdinRead)
        requires
            old(self).canonical() && old(self).newlines_count > 0 ==> first_newline(old(self).stdin@, 0) is Some,
        ensures
            final(self).stdout == old(self).stdout,
            final(self).flags == old(self).flags,
            final(self).wait_queue == old(self).wait_queue,
            ({
                let inp = old(self).stdin@;
                let canonical = old(self).canonical();
                if (canonical && old(self).newlines_count == 0) || (!canonical && inp.len() == 0 && buf_len > 0) {
                    r is Wait && final(self).stdin == old(self).stdin && final(self).newlines_count
                        == old(self).newlines_count
                } else {
                    let max_read = if canonical { first_newline(inp, 0)->0 + 1 } else { inp.len() as int };
                    let n = if buf_len < max_read { buf_len as int } else { max_read };
                    let line_done = canonical && n == max_read;
                    r matches StdinRead::Read { data, drained } && data@ == inp.subrange(0, n)
                        && final(self).stdin@ == inp.subrange(n, inp.len() as int)
                        && final(self).newlines_count == (if line_done {
                        old(self).newlines_count - 1
                    } else {
                        old(self).newlines_count as int
                    }) && drained == (final(self).stdin@.len() == 0 || (canonical && !(line_done
                        && final(self).newlines_count > 0)))
                }
            }),
    {
        let canonical = self.flags.contains(TTYFlags::CANONICAL);
        if canonical {
            if self.newlines_count == 0 {
                return StdinRead::Wait;
            }
        } else if self.stdin.len() == 0 && buf_len > 0 {
            return StdinRead::Wait;
        }
        let stdin_len = self.stdin.len();
        proof {
            lemma_first_newline_range(self.stdin@, 0);
        }
        let max_read = if canonical {
            match find_newline(&self.stdin) {
                Some(p) => p + 1,
                None => 0,
            }
        } else {
            self.stdin.len()
        };
        let read_len = if buf_len < max_read {
            buf_len
        } else {
            max_read
        };
        let mut newlines_ava = false;
        if canonical && read_len == max_read {
            self.newlines_count = self.newlines_count - 1;
            newlines_ava = self.newlines_count > 0;
        }
        let (data, rest) = split_front(&self.stdin, read_len);
        self.stdin = rest;
        let drained = self.stdin.len() == 0 || (canonical && !newlines_ava);
        StdinRead::Read { data, drained }
    }

    /// Sets the modes.
    pub fn set_flags(&mut self, tty_flags: TTYFlags)
        ensures
            final(self).flags == tty_flags,
            final(self).stdin == old(self).stdin,
            final(self).stdout == old(self).stdout,
            final(self).newlines_count == old(self).newlines_count,
            final(self).wait_queue == old(self).wait_queue,
    {
        self.flags = tty_flags;
    }

    /// The modes.
    pub fn read_flags(&self) -> (r: TTYFlags)
        ensures
            r == self.flags,
    {
        self.flags
    }

    /// Runs a TTY command: 0 reads the modes (handed back for the caller to
    /// store), 1 sets them to the low 16 bits of `arg`; any other command is
    /// invalid.
    pub fn process_command(&mut self, cmd: u16, arg: u64) -> (r: Result<Option<TTYFlags>, ErrorStatus>)
        ensures
            cmd == 0 ==> r == Ok::<Option<TTYFlags>, ErrorStatus>(Some(old(self).flags)) && final(self).flags == old(self).flags,
            cmd == 1 ==> r == Ok::<Option<TTYFlags>, ErrorStatus>(None) && final(self).flags.0 == arg % 0x1_0000,
            cmd != 0 && cmd != 1 ==> r == Err::<Option<TTYFlags>, ErrorStatus>(ErrorStatus::InvalidCommand)
                && final(self).flags == old(self).flags,
            final(self).stdin == old(self).stdin,
            final(self).stdout == old(self).stdout,
            final(self).newlines_count == old(self).newlines_count,
            final(self).wait_queue == old(self).wait_queue,
    {
        if cmd == 0 {
            Ok(Some(self.read_flags()))
        } else if cmd == 1 {
            let bits = (arg % 0x1_0000) as u16;
            self.set_flags(TTYFlags(bits));
            Ok(None)
        } else {
            Err(ErrorStatus::InvalidCommand)
        }
    }
}

/// Splits `v` into its first `n` bytes and the rest.
pub fn split_front(v: &Vec<u8>, n: usize) -> (r: (Vec<u8>, Vec<u8>))
    requires
        n <= v@.len(),
    ensures
        r.0@ == v@.subrange(0, n as int),
        r.1@ == v@.subrange(n as int, v@.len() as int),
{
    let mut a: Vec<u8> = Vec::new();
    let mut b: Vec<u8> = Vec::new();
    let mut i: usize = 0;
    while i < v.len()
        invariant
            0 <= i <= v@.len(),
            n <= v@.len(),
            a@ == v@.subrange(0, if i < n { i as int } else { n as int }),
            b@ == (if i <= n { Seq::<u8>::empty() } else { v@.subrange(n as int, i as int) }),
        decreases v@.len() - i,
    {
        if i < n {
            a.push(v[i]);
        } else {
            b.push(v[i]);
        }
        i = i + 1;
        assert(a@ =~= v@.subrange(0, if i < n { i as int } else { n as int }));
        assert(b@ =~= (if i <= n { Seq::<u8>::empty() } else { v@.subrange(n as int, i as int) }));
    }
    (a, b)
}

/// The index of the first line feed of `v`, if any.
pub fn find_newline(v: &Vec<u8>) -> (r: Option<usize>)
    ensures
        match first_newline(v@, 0) {
            Some(p) => r == Some(p as usize),
            None => r is None,
        },
        r matches Some(p) ==> p < v@.len(),
{
    let mut i: usize = 0;
    while i < v.len()
        invariant
            0 <= i <= v@.len(),
            first_newline(v@, i as int) == first_newline(v@, 0),
        decreases v@.len() - i,
    {
        if v[i] == NEWLINE {
            return Some(i);
        }
        i = i + 1;
    }
    None
}

/// Whether `s` holds no erase character and no line feed.
pub open spec fn plain_text(s: Seq<u8>) -> bool {
    forall|i: int| 0 <= i < s.len() ==> s[i] != ERASE && s[i] != NEWLINE
}

proof fn lemma_plain_writes(st: (Seq<u8>, Seq<u8>, int), s: Seq<u8>, flags: u16)
    requires
        forall|i: int| 0 <= i < s.len() ==> s[i] != ERASE,
    ensures
        stdin_writes(st, s, flags).0 == st.0 + s,
        flags & TTYFlags::ECHO == TTYFlags::ECHO ==> stdin_writes(st, s, flags).1 == st.1 + s,
        flags & TTYFlags::ECHO != TTYFlags::ECHO ==> stdin_writes(st, s, flags).1 == st.1,
        plain_text(s) ==> stdin_writes(st, s, flags).2 == st.2,
    decreases s.len(),
{
    if s.len() > 0 {
        lemma_plain_writes(st, s.drop_last(), flags);
        assert(st.0 + s.drop_last() + seq![s.last()] =~= st.0 + s);
        assert((st.0 + s.drop_last()).push(s.last()) =~= st.0 + s);
        assert((st.1 + s.drop_last()).push(s.last()) =~= st.1 + s);
    } else {
        assert(st.0 + s =~= st.0);
        assert(st.1 + s =~= st.1);
    }
}

/// Echoing mirrors the input: with echo on, bytes written to stdin that
/// hold no erase character are added to stdin and to stdout as they are.
pub proof fn law_echo_mirrors_input(st: (Seq<u8>, Seq<u8>, int), s: Seq<u8>, flags: u16)
    requires
        flags & TTYFlags::ECHO == TTYFlags::ECHO,
        forall|i: int| 0 <= i < s.len() ==> s[i] != ERASE,
    ensures
        stdin_writes(st, s, flags).0 == st.0 + s,
        stdin_writes(st, s, flags).1 == st.1 + s,
{
    lemma_plain_writes(st, s, flags);
}

/// A line written to an empty stdin in canonical mode is what the next read
/// with room for it gives back: stdin holds the line, one complete line, and
/// its first line feed is its last byte.
pub proof fn law_canonical_line_round_trip(out: Seq<u8>, text: Seq<u8>, flags: u16)
    requires
        flags & TTYFlags::CANONICAL == TTYFlags::CANONICAL,
        plain_text(text),
    ensures
        ({
            let line = text.push(NEWLINE);
            let st = stdin_writes((Seq::empty(), out, 0), line, flags);
            st.0 == line && st.2 == 1 && first_newline(st.0, 0) == Some(text.len() as int)
        }),
{
    let line = text.push(NEWLINE);
    let st0 = (Seq::<u8>::empty(), out, 0int);
    lemma_plain_writes(st0, text, flags);
    assert(line.drop_last() =~= text);
    assert(Seq::<u8>::empty() + text =~= text);
    let st = stdin_writes(st0, line, flags);
    assert(st.0 =~= line);
    assert forall|j: int| 0 <= j <= text.len() implies first_newline(line, j) == Some(text.len() as int) by {
        lemma_first_newline_from(line, j, text.len() as int);
    }
}

proof fn lemma_first_newline_from(s: Seq<u8>, j: int, p: int)
    requires
        0 <= j <= p < s.len(),
        s[p] == NEWLINE,
        forall|k: int| j <= k < p ==> s[k] != NEWLINE,
    ensures
        first_newline(s, j) == Some(p),
    decreases p - j,
{
    if j < p {
        lemma_first_newline_from(s, j + 1, p);
    }
}

/// In canonical mode, erasing takes back the last character written when it
/// is not a line feed: stdin is as it was before that character.
pub proof fn law_erase_takes_back(st: (Seq<u8>, Seq<u8>, int), c: u8, flags: u16)
    requires
        flags & TTYFlags::CANONICAL == TTYFlags::CANONICAL,
        c != NEWLINE,
        c != ERASE,
    ensures
        stdin_writes(st, seq![c, ERASE], flags).0 == st.0,
        stdin_writes(st, seq![c, ERASE], flags).2 == st.2,
{
    let s = seq![c, ERASE];
    assert(s.drop_last() =~= seq![c]);
    assert(seq![c].drop_last() =~= Seq::<u8>::empty());
    assert(stdin_writes(st, Seq::<u8>::empty(), flags) == st);
    let st1 = stdin_writes(st, seq![c], flags);
    assert(st1 == stdin_step(st, c, flags));
    assert(st1.0 =~= st.0.push(c));
    assert(st1.2 == st.2);
    assert(st1.0.last() == c);
    assert(st1.0.drop_last() =~= st.0);
    assert(stdin_writes(st, s, flags) == stdin_step(st1, ERASE, flags));
}

} // verus!
