//! The splitter contract and the scanner that drives a splitter over a
//! growable buffer.
use crate::cursor::{
    advance_cursor,
    column_at,
    cursor_le,
    lemma_advance,
    lemma_cursor_monotonic,
    lemma_cursor_origin,
    lemma_cursor_prefix,
    line_at,
};
use vstd::prelude::*;

verus! {

/// `std::io::Error`, the failure of a byte source. The library carries such
/// a value from the source to the caller and never looks into it.
#[verifier::external_type_specification]
#[verifier::external_body]
pub struct ExIoError(std::io::Error);

/// An error that can be told where in the input it arose, and that a failure
/// of the byte source can be turned into.
pub trait ScanError: From<std::io::Error> + Sized {
    /// This error, placed at `line` and `column`. Kinds of error that carry
    /// no position are left as they are, which is the default.
    open spec fn with_position(self, line: u64, column: usize) -> Self {
        self
    }

    /// Records the position at which the error arose.
    fn position(&mut self, line: u64, column: usize)
        ensures
            *final(self) == old(self).with_position(line, column),
    ;
}

/// A token found in a window: the bytes `start..end` of the window as the
/// splitter left it, and what the splitter took them for.
#[derive(Debug)]
pub struct Token<T> {
    pub start: usize,
    pub end: usize,
    pub kind: T,
}

/// What a splitter answers: an error, or an optional token together with the
/// number of leading bytes of the window that are now consumed. No token and
/// no bytes consumed asks for more data; no token and some bytes consumed
/// skips them.
pub type SplitResult<T, E> = Result<(Option<Token<T>>, usize), E>;

/// Everything one call of `split` does: the splitter afterwards, the window
/// afterwards, and the answer.
pub ghost struct Split<S, T, E> {
    pub next: S,
    pub data: Seq<u8>,
    pub result: SplitResult<T, E>,
}

/// The rules that every split obeys, whatever the splitter. The window keeps
/// its length. An error or a request for more data leaves it untouched.
/// Otherwise at most the consumed bytes are rewritten, a token lies inside
/// them, and a token found in a window that is not empty consumes at least
/// one byte.
pub open spec fn well_formed<T, E>(before: Seq<u8>, after: Seq<u8>, result: SplitResult<T, E>) -> bool {
    &&& after.len() == before.len()
    &&& match result {
        Err(_) => after == before,
        Ok((None, advance)) => {
            &&& advance <= before.len()
            &&& after.skip(advance as int) == before.skip(advance as int)
        },
        Ok((Some(token), advance)) => {
            &&& token.start <= token.end <= advance <= before.len()
            &&& before.len() > 0 ==> advance >= 1
            &&& after.skip(advance as int) == before.skip(advance as int)
        },
    }
}

/// A splitter at rest: shown an empty window at the end of the stream, it
/// asks for more and stays as it is.
pub open spec fn at_rest<S: Splitter>(splitter: S) -> bool {
    splitter.step(Seq::empty(), true) == (Split {
        next: splitter,
        data: Seq::<u8>::empty(),
        result: Ok::<(Option<Token<S::TokenType>>, usize), S::Error>((None, 0usize)),
    })
}

/// A tokenization strategy, called by the scanner on its live window.
pub trait Splitter: Sized {
    type Error: ScanError;

    type TokenType;

    /// What `split` does to a window holding `data`. Every verified splitter
    /// says so; the default stands for a splitter of which nothing is known.
    open spec fn step(&self, data: Seq<u8>, eof: bool) -> Split<
        Self,
        Self::TokenType,
        Self::Error,
    > {
        arbitrary()
    }

    /// Finds the next token at the start of `data`. `eof` says that no more
    /// data will follow. The window is empty only at the end of the stream.
    /// A splitter that asks for more at the end of the stream is at rest.
    fn split(&mut self, data: &mut [u8], eof: bool) -> (answer: SplitResult<
        Self::TokenType,
        Self::Error,
    >)
        requires
            old(data)@.len() > 0 || eof,
        ensures
            answer == old(self).step(old(data)@, eof).result,
            *final(self) == old(self).step(old(data)@, eof).next,
            final(data)@ == old(self).step(old(data)@, eof).data,
            well_formed(old(data)@, final(data)@, answer),
            eof && answer == Ok::<(Option<Token<Self::TokenType>>, usize), Self::Error>(
                (None, 0usize),
            ) ==> final(self).step(Seq::empty(), true) == (Split {
                next: *final(self),
                data: Seq::<u8>::empty(),
                result: Ok::<(Option<Token<Self::TokenType>>, usize), Self::Error>((None, 0usize)),
            }),
    ;
}

/// What one call of `scan` found.
#[derive(Debug, PartialEq, Eq)]
pub enum Step<T> {
    /// A token of this kind; its bytes are the scanner's `token()`.
    Token(T),
    /// The stream has ended and holds no further token.
    End,
    /// The window holds no whole token; the scanner must be given more data,
    /// or be told that there is none.
    NeedData,
}

/// What a scanner is: what it has received and consumed, and how much room
/// its buffer has.
pub ghost struct State<S> {
    /// The splitter.
    pub splitter: S,
    /// Every byte received since the scanner was made or reset, as received.
    pub input: Seq<u8>,
    /// The bytes consumed so far, as the splitter left them.
    pub passed: Seq<u8>,
    /// Whether the source has said that it holds no more.
    pub eof: bool,
    /// The bytes of the last token.
    pub token: Seq<u8>,
    /// How many bytes were consumed before the first byte of the last token.
    pub token_at: nat,
    /// How many consumed bytes still stand in the buffer, before the window.
    pub front: nat,
    /// How many bytes the buffer can hold.
    pub capacity: nat,
}

impl<S: Splitter> State<S> {
    /// A scanner that has not received anything.
    pub open spec fn start(splitter: S, capacity: nat) -> Self {
        State {
            splitter,
            input: Seq::empty(),
            passed: Seq::empty(),
            eof: false,
            token: Seq::empty(),
            token_at: 0,
            front: 0,
            capacity,
        }
    }

    /// The live window: what was received and is not yet consumed.
    pub open spec fn window(self) -> Seq<u8> {
        self.input.skip(self.passed.len() as int)
    }

    /// The line of the first byte of the window.
    pub open spec fn line(self) -> int {
        line_at(self.passed, self.passed.len() as int)
    }

    /// The column of the first byte of the window.
    pub open spec fn column(self) -> int {
        column_at(self.passed, self.passed.len() as int)
    }

    /// No more is consumed than was received, and the last token lies in
    /// what is consumed.
    pub open spec fn valid(self) -> bool {
        &&& self.passed.len() <= self.input.len()
        &&& self.token_at + self.token.len() <= self.passed.len()
        &&& self.front + self.window().len() <= self.capacity
    }

    /// How many bytes of the buffer are free behind the window.
    pub open spec fn room(self) -> nat {
        (self.capacity - self.front - self.window().len()) as nat
    }

    /// The line and column counters can take the whole window.
    pub open spec fn cursor_fits(self) -> bool {
        &&& self.line() + self.window().len() <= u64::MAX
        &&& self.column() + self.window().len() <= usize::MAX
    }

    /// The buffer can take the room that is made in it: it need not grow, or
    /// twice its size is a size that a buffer can have.
    pub open spec fn room_fits(self) -> bool {
        self.grows() ==> 2 * self.capacity <= isize::MAX
    }

    /// The stream has ended, the window is empty and the splitter is at rest.
    pub open spec fn done(self) -> bool {
        &&& self.eof
        &&& self.window().len() == 0
        &&& at_rest(self.splitter)
    }

    /// After the bytes `bytes`, which stand where the window starts, are
    /// consumed.
    pub open spec fn passing(self, bytes: Seq<u8>) -> Self {
        State {
            splitter: self.splitter,
            input: self.input,
            passed: self.passed + bytes,
            eof: self.eof,
            token: self.token,
            token_at: self.token_at,
            front: self.front + bytes.len(),
            capacity: self.capacity,
        }
    }

    /// After the source has answered with `bytes`: no bytes mean that it has
    /// ended.
    pub open spec fn fed(self, bytes: Seq<u8>) -> Self {
        State {
            splitter: self.splitter,
            input: self.input + bytes,
            passed: self.passed,
            eof: self.eof || bytes.len() == 0,
            token: self.token,
            token_at: self.token_at,
            front: self.front,
            capacity: self.capacity,
        }
    }

    /// Whether making room moves the window to the start of the buffer: it
    /// does if consumed bytes stand before the window, and either no room is
    /// left behind it or they take more than half of the buffer.
    pub open spec fn shifts(self) -> bool {
        self.front > 0 && (self.front + self.window().len() == self.capacity || self.front
            > self.capacity / 2)
    }

    /// Whether making room doubles the buffer: it does if the window fills
    /// it.
    pub open spec fn grows(self) -> bool {
        self.window().len() == self.capacity
    }

    /// After room is made behind the window. The last token is forgotten.
    pub open spec fn making_room(self) -> Self {
        State {
            splitter: self.splitter,
            input: self.input,
            passed: self.passed,
            eof: self.eof,
            token: Seq::empty(),
            token_at: self.token_at,
            front: if self.shifts() {
                0
            } else {
                self.front
            },
            capacity: if !self.grows() {
                self.capacity
            } else if self.capacity == 0 {
                1
            } else {
                2 * self.capacity
            },
        }
    }

    /// After the end of the stream is found: what is left of the window is
    /// dropped, and the last token is forgotten.
    pub open spec fn ended(self) -> Self {
        State {
            splitter: self.splitter,
            input: self.input.take(self.passed.len() as int),
            passed: self.passed,
            eof: self.eof,
            token: Seq::empty(),
            token_at: self.token_at,
            front: 0,
            capacity: self.capacity,
        }
    }

    /// With the splitter `splitter`.
    pub open spec fn with(self, splitter: S) -> Self {
        State {
            splitter,
            input: self.input,
            passed: self.passed,
            eof: self.eof,
            token: self.token,
            token_at: self.token_at,
            front: self.front,
            capacity: self.capacity,
        }
    }

    /// What the scanner makes of one split of its window. An error is placed
    /// at the cursor. A token is recorded and its bytes are consumed.
    /// Skipped bytes are consumed and the verdict is left open. A request
    /// for more data ends the scan: for good, with what is left of the window
    /// dropped, if the stream has ended.
    pub open spec fn settle(self, split: Split<S, S::TokenType, S::Error>) -> (
        Self,
        Result<Option<Step<S::TokenType>>, S::Error>,
    ) {
        let there = self.with(split.next);
        match split.result {
            Err(e) => (there, Err(e.with_position(self.line() as u64, self.column() as usize))),
            Ok((Some(token), advance)) => (
                State {
                    splitter: split.next,
                    input: self.input,
                    passed: self.passed + split.data.take(advance as int),
                    eof: self.eof,
                    token: split.data.subrange(token.start as int, token.end as int),
                    token_at: self.passed.len() + token.start as nat,
                    front: self.front + advance as nat,
                    capacity: self.capacity,
                },
                Ok(Some(Step::Token(token.kind))),
            ),
            Ok((None, advance)) => if advance > 0 {
                (there.passing(split.data.take(advance as int)), Ok(None))
            } else if self.eof {
                (there.ended(), Ok(Some(Step::End)))
            } else {
                (there, Ok(Some(Step::NeedData)))
            },
        }
    }

    /// What `scan` does: the splitter is shown the window, again and again
    /// while it skips, unless the window is empty and the stream may go on.
    pub open spec fn scan(self) -> (Self, Result<Step<S::TokenType>, S::Error>)
        decreases self.input.len() - self.passed.len(),
    {
        if self.window().len() == 0 && !self.eof {
            (self, Ok(Step::NeedData))
        } else {
            let split = self.splitter.step(self.window(), self.eof);
            let (next, verdict) = self.settle(split);
            match verdict {
                Err(e) => (next, Err(e)),
                Ok(Some(step)) => (next, Ok(step)),
                Ok(None) => if self.passed.len() < next.passed.len() <= self.input.len() {
                    next.scan()
                } else {
                    (next, Ok(Step::NeedData))
                },
            }
        }
    }
}

/// Copies the `len` bytes of `buf` that start at `from` to its start.
fn move_down(buf: &mut Vec<u8>, from: usize, len: usize)
    requires
        from + len <= old(buf)@.len(),
    ensures
        final(buf)@.len() == old(buf)@.len(),
        final(buf)@.take(len as int) == old(buf)@.subrange(from as int, from + len),
{
    let ghost orig = buf@;
    let size = buf.len();
    let mut i: usize = 0;
    while i < len
        invariant
            i <= len,
            from + len <= size,
            size == buf@.len(),
            buf@.len() == orig.len(),
            forall|j: int| 0 <= j < i ==> buf@[j] == orig[from + j],
            forall|j: int| from + i <= j < buf@.len() ==> buf@[j] == orig[j],
        decreases len - i,
    {
        let b = buf[from + i];
        buf.set(i, b);
        i += 1;
    }
    assert(buf@.take(len as int) =~= orig.subrange(from as int, from + len));
}

/// Lends out what `buf` holds from `from` on.
fn lend(buf: &mut Vec<u8>, from: usize) -> (room: &mut [u8])
    requires
        from <= old(buf)@.len(),
    ensures
        room@ == old(buf)@.skip(from as int),
        final(buf)@ == old(buf)@.subrange(0, from as int) + final(room)@,
{
    let whole = buf.as_mut_slice();
    let (_head, tail) = whole.split_at_mut(from);
    tail
}

/// Whether an answer stays inside a window of `len` bytes.
pub open spec fn fits<T, E>(answer: SplitResult<T, E>, len: int) -> bool {
    match answer {
        Err(_) => true,
        Ok((None, advance)) => advance <= len,
        Ok((Some(token), advance)) => token.start <= token.end <= advance <= len,
    }
}

/// How many bytes an answer consumes.
pub open spec fn claimed<T, E>(answer: SplitResult<T, E>) -> int {
    match answer {
        Err(_) => 0,
        Ok((_, advance)) => advance as int,
    }
}

/// A scanner that has reached the end of its stream stays there: scanning
/// again finds the end again, and scanning once more changes nothing.
pub proof fn lemma_end_is_final<S: Splitter>(state: State<S>)
    requires
        state.valid(),
        state.done(),
    ensures
        state.scan() == (state.ended(), Ok::<Step<S::TokenType>, S::Error>(Step::End)),
        state.ended().done(),
        state.ended().valid(),
        state.ended().ended() == state.ended(),
{
    assert(state.window() =~= Seq::<u8>::empty());
    assert(state.input.take(state.passed.len() as int) =~= state.input);
    assert(state.with(state.splitter) == state);
    assert(state.ended().window() =~= Seq::<u8>::empty());
    assert(state.ended().input.take(state.passed.len() as int) =~= state.ended().input);
}

/// The cursor is where the consumed bytes put it: while the splitter has
/// left them as they were received, the line is one more than the number of
/// line feeds consumed, and the column is the distance from the last of
/// them, or from the start of the input where there is none.
pub proof fn lemma_cursor_accuracy<S: Splitter>(state: State<S>)
    requires
        state.valid(),
        state.passed == state.input.take(state.passed.len() as int),
    ensures
        state.line() == line_at(state.input, state.passed.len() as int),
        state.column() == column_at(state.input, state.passed.len() as int),
{
    lemma_cursor_prefix(state.passed, state.input, state.passed.len() as int);
}

/// While the consumed bytes are as they were received, a token that lies in
/// them is a piece of the input.
pub proof fn lemma_token_is_input<S: Splitter>(state: State<S>)
    requires
        state.valid(),
        state.passed == state.input.take(state.passed.len() as int),
        state.token == state.passed.subrange(
            state.token_at as int,
            (state.token_at + state.token.len()) as int,
        ),
    ensures
        state.token == state.input.subrange(
            state.token_at as int,
            (state.token_at + state.token.len()) as int,
        ),
{
    assert(state.passed.subrange(
        state.token_at as int,
        (state.token_at + state.token.len()) as int,
    ) =~= state.input.subrange(
        state.token_at as int,
        (state.token_at + state.token.len()) as int,
    ));
}

/// Consuming more never moves the cursor back, in lexicographic order of
/// (line, column), and moves it by no more than the number of bytes.
pub proof fn lemma_cursor_advances<S: Splitter>(state: State<S>, bytes: Seq<u8>)
    ensures
        cursor_le(
            (state.line(), state.column()),
            (state.passing(bytes).line(), state.passing(bytes).column()),
        ),
        state.passing(bytes).line() <= state.line() + bytes.len(),
        state.passing(bytes).column() <= state.column() + bytes.len(),
{
    let longer = state.passed + bytes;
    assert(longer.take(state.passed.len() as int) =~= state.passed);
    lemma_cursor_prefix(state.passed, longer, state.passed.len() as int);
    lemma_cursor_monotonic(longer, state.passed.len() as int, longer.len() as int);
}

/// Like a buffered reader, but with a buffer that grows, and with a splitter
/// that cuts what is read into tokens.
///
/// The scanner does not read: whoever owns the source lends it the spare end
/// of the buffer (`spare`), reads into it, and says how much was read
/// (`filled`). `scan` then steps through the tokens, skipping the bytes
/// between them.
pub struct Scanner<S: Splitter> {
    /// The function to tokenize the input.
    splitter: S,
    /// Buffer used as argument to split.
    buf: Vec<u8>,
    /// First non-processed byte in buf.
    pos: usize,
    /// End of data in buf.
    cap: usize,
    eof: bool,
    /// current line number
    line: u64,
    /// current column number (byte offset, not char offset)
    column: usize,
    /// Where in buf the last token starts
    token_start: usize,
    /// and where it ends.
    token_end: usize,
    input: Ghost<Seq<u8>>,
    passed: Ghost<Seq<u8>>,
    token_at: Ghost<nat>,
}

impl<S: Splitter> View for Scanner<S> {
    type V = State<S>;

    closed spec fn view(&self) -> State<S> {
        State {
            splitter: self.splitter,
            input: self.input@,
            passed: self.passed@,
            eof: self.eof,
            token: self.buf@.subrange(self.token_start as int, self.token_end as int),
            token_at: self.token_at@,
            front: self.pos as nat,
            capacity: self.buf@.len(),
        }
    }
}

impl<S: Splitter> Scanner<S> {
    /// The scanner is in order, except that the first `k` bytes of its
    /// window may have been rewritten.
    pub closed spec fn wf_from(&self, k: int) -> bool {
        &&& self.pos <= self.cap <= self.buf@.len()
        &&& self.token_start <= self.token_end <= self.pos
        &&& self.passed@.len() + (self.cap - self.pos) == self.input@.len()
        &&& 0 <= k <= self.cap - self.pos ==> self.buf@.subrange(self.pos + k, self.cap as int)
            == self.input@.skip(self.passed@.len() + k)
        &&& self.line == line_at(self.passed@, self.passed@.len() as int)
        &&& self.column == column_at(self.passed@, self.passed@.len() as int)
        &&& self.token_at@ + (self.token_end - self.token_start) <= self.passed@.len()
    }

    /// The scanner is in order.
    pub open spec fn wf(&self) -> bool {
        self.wf_from(0)
    }

    /// What the window holds now.
    pub closed spec fn live(&self) -> Seq<u8> {
        self.buf@.subrange(self.pos as int, self.cap as int)
    }

    /// What the spare end of the buffer holds.
    pub closed spec fn tail(&self) -> Seq<u8> {
        self.buf@.skip(self.cap as int)
    }

    /// A scanner in order is in order whatever part of its window is left
    /// out of account; its window holds what was received, and its state is
    /// valid.
    pub proof fn lemma_wf(&self, k: int)
        requires
            self.wf(),
            0 <= k,
        ensures
            self.wf_from(k),
            self.live() == self@.window(),
            self.tail().len() == self@.room(),
            self@.valid(),
    {
        assert(self.live() =~= self@.window());
        if k <= self.cap - self.pos {
            assert(self.buf@.subrange(self.pos + k, self.cap as int) =~= self.live().skip(k));
            assert(self.input@.skip(self.passed@.len() + k) =~= self@.window().skip(k));
        }
    }

    /// A scanner with a buffer of 4096 bytes.
    pub fn new(splitter: S) -> (scanner: Scanner<S>)
        ensures
            scanner.wf(),
            scanner@ == State::start(splitter, 4096),
            scanner@.cursor_fits(),
    {
        Self::with_capacity(splitter, 4096)
    }

    /// A scanner with a buffer of `capacity` bytes.
    pub fn with_capacity(splitter: S, capacity: usize) -> (scanner: Scanner<S>)
        ensures
            scanner.wf(),
            scanner@ == State::start(splitter, capacity as nat),
            scanner@.cursor_fits(),
    {
        let buf = vec![0u8; capacity];
        let scanner = Scanner {
            splitter,
            buf,
            pos: 0,
            cap: 0,
            eof: false,
            line: 1,
            column: 1,
            token_start: 0,
            token_end: 0,
            input: Ghost(Seq::empty()),
            passed: Ghost(Seq::empty()),
            token_at: Ghost(0),
        };
        proof {
            lemma_cursor_origin(Seq::<u8>::empty(), 0);
            assert(scanner@.token =~= Seq::<u8>::empty());
            assert(scanner.buf@.subrange(0, 0) =~= Seq::<u8>::empty().skip(0));
            assert(scanner@.window() =~= Seq::<u8>::empty());
        }
        scanner
    }

    /// Current line number
    pub fn line(&self) -> (line: u64)
        requires
            self.wf(),
        ensures
            line == self@.line(),
    {
        self.line
    }

    /// Current column number (byte offset, not char offset)
    pub fn column(&self) -> (column: usize)
        requires
            self.wf(),
        ensures
            column == self@.column(),
    {
        self.column
    }

    pub fn splitter(&self) -> (splitter: &S)
        ensures
            *splitter == self@.splitter,
    {
        &self.splitter
    }

    /// Whether the source has said that it holds no more.
    pub fn is_eof(&self) -> (eof: bool)
        ensures
            eof == self@.eof,
    {
        self.eof
    }

    /// How many bytes the buffer can hold.
    pub fn capacity(&self) -> (capacity: usize)
        ensures
            capacity == self@.capacity,
    {
        self.buf.len()
    }

    /// The live window: what was received and is not yet consumed.
    pub fn window(&self) -> (window: &[u8])
        requires
            self.wf(),
        ensures
            window@ == self@.window(),
    {
        proof {
            self.lemma_wf(0);
        }
        vstd::slice::slice_subrange(self.buf.as_slice(), self.pos, self.cap)
    }

    /// The bytes of the last token. They stay until the next call of `scan`,
    /// `spare` or `reset`.
    pub fn token(&self) -> (token: &[u8])
        requires
            self.wf(),
        ensures
            token@ == self@.token,
    {
        vstd::slice::slice_subrange(self.buf.as_slice(), self.token_start, self.token_end)
    }

    /// Reset the scanner such that it behaves as if it had never been used.
    pub fn reset(&mut self)
        ensures
            final(self).wf(),
            final(self)@ == State::start(old(self)@.splitter, old(self)@.capacity),
            final(self)@.cursor_fits(),
    {
        self.pos = 0;
        self.cap = 0;
        self.eof = false;
        self.line = 1;
        self.column = 1;
        self.token_start = 0;
        self.token_end = 0;
        self.input = Ghost(Seq::empty());
        self.passed = Ghost(Seq::empty());
        self.token_at = Ghost(0);
        proof {
            lemma_cursor_origin(Seq::<u8>::empty(), 0);
            assert(self@.token =~= Seq::<u8>::empty());
            assert(self.buf@.subrange(0, 0) =~= Seq::<u8>::empty().skip(0));
            assert(self@.window() =~= Seq::<u8>::empty());
        }
    }

    /// Whether the line and column counters can take the whole window, as
    /// `scan`, `consume` and `read` need.
    pub fn cursor_fits(&self) -> (fits: bool)
        requires
            self.wf(),
        ensures
            fits == self@.cursor_fits(),
    {
        proof {
            self.lemma_wf(0);
        }
        let window = self.cap - self.pos;
        window as u64 <= u64::MAX - self.line && window <= usize::MAX - self.column
    }

    /// Whether the buffer can take the room that `spare` makes in it.
    pub fn room_fits(&self) -> (fits: bool)
        requires
            self.wf(),
        ensures
            fits == self@.room_fits(),
    {
        proof {
            self.lemma_wf(0);
        }
        let capacity = self.buf.len();
        self.cap - self.pos != capacity || capacity <= (isize::MAX as usize) / 2
    }
}

impl<S: Splitter> Scanner<S> {
    /// Consumes `amt` bytes of the window, as they stand in the buffer.
    fn pass(&mut self, amt: usize)
        requires
            old(self).wf_from(amt as int),
            amt <= old(self).cap - old(self).pos,
            old(self).line + amt <= u64::MAX,
            old(self).column + amt <= usize::MAX,
        ensures
            final(self).wf(),
            final(self)@ == old(self)@.passing(old(self).live().take(amt as int)),
            final(self).buf == old(self).buf,
            final(self).cap == old(self).cap,
            final(self).pos == old(self).pos + amt,
            final(self).token_start == old(self).token_start,
            final(self).token_end == old(self).token_end,
    {
        let ghost before = self.passed@;
        let ghost chunk = self.live().take(amt as int);
        let end = self.pos + amt;
        let bytes = vstd::slice::slice_subrange(self.buf.as_slice(), self.pos, end);
        proof {
            assert(bytes@ =~= chunk);
            lemma_cursor_origin(before, before.len() as int);
            lemma_advance(before, chunk);
        }
        let (line, column) = advance_cursor(bytes, self.line, self.column);
        self.line = line;
        self.column = column;
        self.pos = end;
        self.passed = Ghost(before + chunk);
        proof {
            assert(self.buf@.subrange(self.pos as int, self.cap as int) =~= self.input@.skip(
                self.passed@.len() as int,
            )) by {
                assert(self.buf@.subrange(self.pos as int, self.cap as int) =~= old(
                    self,
                ).buf@.subrange(old(self).pos + amt, old(self).cap as int));
            }
        }
    }

    /// Consume `amt` bytes of the window.
    pub fn consume(&mut self, amt: usize)
        requires
            old(self).wf(),
            amt <= old(self)@.window().len(),
            old(self)@.cursor_fits(),
        ensures
            final(self).wf(),
            final(self)@ == old(self)@.passing(old(self)@.window().take(amt as int)),
    {
        proof {
            self.lemma_wf(amt as int);
        }
        self.pass(amt);
    }

    /// Shows the window to the splitter.
    fn split_window(&mut self) -> (answer: SplitResult<S::TokenType, S::Error>)
        requires
            old(self).wf(),
            old(self).cap > old(self).pos || old(self).eof,
        ensures
            answer == old(self)@.splitter.step(old(self)@.window(), old(self).eof).result,
            final(self).splitter == old(self)@.splitter.step(
                old(self)@.window(),
                old(self).eof,
            ).next,
            final(self).live() == old(self)@.splitter.step(old(self)@.window(), old(self).eof).data,
            well_formed(old(self)@.window(), final(self).live(), answer),
            old(self).eof && answer == Ok::<(Option<Token<S::TokenType>>, usize), S::Error>(
                (None, 0usize),
            ) ==> at_rest(final(self).splitter),
            final(self).wf_from(claimed(answer)),
            final(self).pos == old(self).pos,
            final(self).cap == old(self).cap,
            final(self).eof == old(self).eof,
            final(self).line == old(self).line,
            final(self).column == old(self).column,
            final(self).token_start == old(self).token_start,
            final(self).token_end == old(self).token_end,
            final(self).input == old(self).input,
            final(self).passed == old(self).passed,
            final(self).token_at == old(self).token_at,
            final(self).buf@.len() == old(self).buf@.len(),
            final(self).buf@.take(old(self).pos as int) == old(self).buf@.take(old(self).pos as int),
    {
        proof {
            self.lemma_wf(0);
        }
        let ghost before = self.buf@;
        let ghost window = self.live();
        let pos = self.pos;
        let cap = self.cap;
        let eof = self.eof;
        let whole = self.buf.as_mut_slice();
        let (head, _spare) = whole.split_at_mut(cap);
        let (_done, live) = head.split_at_mut(pos);
        assert(live@ =~= window);
        let answer = self.splitter.split(live, eof);
        let ghost rewritten = live@;
        proof {
            let after = self.live();
            let k = claimed(answer);
            assert(after =~= rewritten);
            assert(self.buf@.take(pos as int) =~= before.take(pos as int));
            assert(self.buf@.subrange(pos + k, cap as int) =~= after.skip(k));
            assert(self.input@.skip(self.passed@.len() + k) =~= window.skip(k));
        }
        answer
    }

    /// Takes the answer that the splitter gave on the window: places an
    /// error at the cursor, records a token and consumes its bytes, consumes
    /// skipped bytes and leaves the verdict open (`None`), or ends the scan
    /// where the splitter asked for more.
    pub fn settle(&mut self, answer: SplitResult<S::TokenType, S::Error>) -> (verdict: Result<
        Option<Step<S::TokenType>>,
        S::Error,
    >)
        requires
            old(self).wf_from(claimed(answer)),
            fits(answer, old(self).live().len() as int),
            old(self)@.cursor_fits(),
        ensures
            final(self).wf(),
            (final(self)@, verdict) == old(self)@.settle(
                Split { next: old(self)@.splitter, data: old(self).live(), result: answer },
            ),
    {
        let ghost live = self.live();
        match answer {
            Err(mut e) => {
                e.position(self.line, self.column);
                Err(e)
            },
            Ok((None, amt)) => {
                if amt > 0 {
                    // Ignore/skip this data
                    self.pass(amt);
                    Ok(None)
                } else if self.eof {
                    // Shut it down.
                    proof {
                        assert(self.input@.take(self.passed@.len() as int).skip(
                            self.passed@.len() as int,
                        ) =~= Seq::<u8>::empty());
                    }
                    self.input = Ghost(self.input@.take(self.passed@.len() as int));
                    self.pos = 0;
                    self.cap = 0;
                    self.token_start = 0;
                    self.token_end = 0;
                    proof {
                        assert(self.buf@.subrange(0, 0) =~= self.input@.skip(
                            self.passed@.len() as int,
                        ));
                        assert(self@.token =~= Seq::<u8>::empty());
                    }
                    Ok(Some(Step::End))
                } else {
                    // Request more data
                    Ok(Some(Step::NeedData))
                }
            },
            Ok((Some(token), amt)) => {
                let start = self.pos + token.start;
                let end = self.pos + token.end;
                let ghost at = self.passed@.len() + token.start as nat;
                self.pass(amt);
                self.token_start = start;
                self.token_end = end;
                self.token_at = Ghost(at);
                proof {
                    assert(self@.token =~= live.subrange(token.start as int, token.end as int));
                }
                Ok(Some(Step::Token(token.kind)))
            },
        }
    }

    /// Advance the Scanner to next token.
    /// Return the kind of the token; its bytes are `token()`.
    /// Return `End` when the end of the input is reached, and `NeedData`
    /// when the buffer must be filled first.
    /// Return any error that the splitter finds, placed at the cursor.
    pub fn scan(&mut self) -> (found: Result<Step<S::TokenType>, S::Error>)
        requires
            old(self).wf(),
            old(self)@.cursor_fits(),
        ensures
            final(self).wf(),
            (final(self)@, found) == old(self)@.scan(),
            final(self)@.cursor_fits(),
            final(self)@.eof == old(self)@.eof,
            final(self)@.passed.len() >= old(self)@.passed.len(),
            final(self)@.passed.take(old(self)@.passed.len() as int) == old(self)@.passed,
            cursor_le(
                (old(self)@.line(), old(self)@.column()),
                (final(self)@.line(), final(self)@.column()),
            ),
            found matches Ok(Step::Token(_)) ==> {
                &&& old(self)@.passed.len() <= final(self)@.token_at
                &&& final(self)@.token == final(self)@.passed.subrange(
                    final(self)@.token_at as int,
                    (final(self)@.token_at + final(self)@.token.len()) as int,
                )
            },
            found matches Ok(Step::End) ==> final(self)@.done(),
            found matches Err(e) ==> exists|raw: S::Error|
                e == #[trigger] raw.with_position(
                    final(self)@.line() as u64,
                    final(self)@.column() as usize,
                ),
    {
        // Loop until we have a token.
        loop
            invariant
                self.wf(),
                self@.cursor_fits(),
                self@.scan() == old(self)@.scan(),
                self@.eof == old(self)@.eof,
                self@.passed.len() >= old(self)@.passed.len(),
                self@.passed.take(old(self)@.passed.len() as int) == old(self)@.passed,
                cursor_le(
                    (old(self)@.line(), old(self)@.column()),
                    (self@.line(), self@.column()),
                ),
            decreases self.cap - self.pos,
        {
            proof {
                self.lemma_wf(0);
            }
            // See if we can get a token with what we already have.
            if !(self.cap > self.pos || self.eof) {
                // We cannot generate a token with what we are holding.
                return Ok(Step::NeedData);
            }
            let ghost here = self@;
            let ghost room = self.cap - self.pos;
            let answer = self.split_window();
            let ghost split = Split {
                next: self@.splitter,
                data: self.live(),
                result: answer,
            };
            let ghost mid = self@;
            proof {
                assert(here.window().len() == room);
                assert(split == here.splitter.step(here.window(), here.eof));
                assert(mid.token =~= here.token) by {
                    assert(mid.token =~= self.buf@.take(self.pos as int).subrange(
                        self.token_start as int,
                        self.token_end as int,
                    ));
                }
                assert(mid.settle(split) == here.settle(split));
                lemma_cursor_advances(here, split.data.take(claimed(answer)));
                assert((here.passed + split.data.take(claimed(answer))).take(
                    old(self)@.passed.len() as int,
                ) =~= here.passed.take(old(self)@.passed.len() as int));
            }
            let ghost k = claimed(answer);
            let verdict = self.settle(answer);
            proof {
                let d = split.data.take(k);
                assert((here.passed + d).len() == here.passed.len() + k);
                if let Ok((Some(token), advance)) = split.result {
                    assert((here.passed + d).subrange(
                        here.passed.len() + token.start,
                        here.passed.len() + token.end,
                    ) =~= split.data.subrange(token.start as int, token.end as int));
                }
                if split.result is Err {
                    assert(split.result->Err_0.with_position(
                        here.line() as u64,
                        here.column() as usize,
                    ) == verdict->Err_0);
                }
            }
            match verdict {
                Err(e) => {
                    return Err(e);
                },
                Ok(Some(step)) => {
                    return Ok(step);
                },
                Ok(None) => {},
            }
        }
    }
}

impl<S: Splitter> Scanner<S> {
    /// Moves the window to the start of the buffer.
    fn shift(&mut self)
        requires
            old(self).wf(),
        ensures
            final(self).wf(),
            final(self)@ == (State {
                splitter: old(self)@.splitter,
                input: old(self)@.input,
                passed: old(self)@.passed,
                eof: old(self)@.eof,
                token: Seq::<u8>::empty(),
                token_at: old(self)@.token_at,
                front: 0,
                capacity: old(self)@.capacity,
            }),
            final(self).pos == 0,
            final(self).cap == old(self).cap - old(self).pos,
            final(self).buf@.len() == old(self).buf@.len(),
    {
        proof {
            self.lemma_wf(0);
        }
        let ghost window = self.live();
        let len = self.cap - self.pos;
        move_down(&mut self.buf, self.pos, len);
        self.pos = 0;
        self.cap = len;
        self.token_start = 0;
        self.token_end = 0;
        proof {
            assert(self.buf@.subrange(0, len as int) =~= window);
            assert(self@.token =~= Seq::<u8>::empty());
        }
    }

    /// Makes room behind the window: moves the window to the start of the
    /// buffer if there is lots of empty space before it or space is needed,
    /// and doubles the buffer if it is full.
    fn make_room(&mut self)
        requires
            old(self).wf(),
            old(self)@.room_fits(),
        ensures
            final(self).wf(),
            final(self)@ == old(self)@.making_room(),
            final(self).cap < final(self).buf@.len(),
            final(self).token_start == 0,
            final(self).token_end == 0,
    {
        proof {
            self.lemma_wf(0);
        }
        // First, shift data to beginning of buffer if there's lots of empty space
        // or space is needed.
        if self.pos > 0 && (self.cap == self.buf.len() || self.pos > self.buf.len() / 2) {
            self.shift();
        } else {
            self.token_start = 0;
            self.token_end = 0;
            proof {
                assert(self@.token =~= Seq::<u8>::empty());
            }
        }
        // Is the buffer full? If so, resize.
        if self.cap == self.buf.len() {
            let ghost before = self.buf@;
            let len = self.buf.len();
            let grown = if len == 0 {
                1
            } else {
                2 * len
            };
            self.buf.resize(grown, 0u8);
            proof {
                assert(self.buf@.subrange(self.pos as int, self.cap as int) =~= before.subrange(
                    self.pos as int,
                    self.cap as int,
                )) by {
                    assert(self.buf@.subrange(0, len as int) == before);
                    assert forall|j: int| self.pos <= j < self.cap implies self.buf@[j]
                        == before[j] by {
                        assert(self.buf@.subrange(0, len as int)[j] == self.buf@[j]);
                    }
                }
                assert(self@.token =~= Seq::<u8>::empty());
            }
        }
    }

    /// Makes room behind the window and lends it out, for the source to
    /// read into. The room is never empty. The last token is forgotten.
    /// What is promised of the scanner afterwards holds once the room is
    /// handed back with the length it had, as every slice is.
    pub fn spare(&mut self) -> (room: &mut [u8])
        requires
            old(self).wf(),
            old(self)@.room_fits(),
        ensures
            room@.len() > 0,
            room@.len() == old(self)@.making_room().room(),
            final(room)@.len() == room@.len() ==> {
                &&& final(self).wf()
                &&& final(self)@ == old(self)@.making_room()
                &&& final(self).tail() == final(room)@
            },
    {
        self.make_room();
        let ghost buf = self.buf@;
        let ghost pos = self.pos as int;
        let cap = self.cap;
        proof {
            assert forall|t: Seq<u8>| t.len() == buf.len() - cap implies ({
                let whole = #[trigger] (buf.subrange(0, cap as int) + t);
                &&& whole.len() == buf.len()
                &&& whole.subrange(pos, cap as int) == buf.subrange(pos, cap as int)
                &&& whole.subrange(0, 0) == Seq::<u8>::empty()
                &&& whole.skip(cap as int) == t
            }) by {
                let whole = buf.subrange(0, cap as int) + t;
                assert(whole.subrange(pos, cap as int) =~= buf.subrange(pos, cap as int));
                assert(whole.subrange(0, 0) =~= Seq::<u8>::empty());
                assert(whole.skip(cap as int) =~= t);
            }
        }
        lend(&mut self.buf, cap)
    }

    /// Takes into the window the first `n` bytes of the room that `spare`
    /// lent out. That the source read nothing means that it has ended.
    pub fn filled(&mut self, n: usize)
        requires
            old(self).wf(),
            n <= old(self).tail().len(),
        ensures
            final(self).wf(),
            final(self)@ == old(self)@.fed(old(self).tail().take(n as int)),
    {
        proof {
            self.lemma_wf(0);
        }
        let ghost bytes = self.tail().take(n as int);
        if n == 0 {
            self.eof = true;
            proof {
                assert(self.input@ + bytes =~= self.input@);
            }
        } else {
            let size = self.buf.len();
            assert(self.cap + n <= size);
            self.cap += n;
            self.input = Ghost(self.input@ + bytes);
            proof {
                assert(self.buf@.subrange(self.pos as int, self.cap as int) =~= self.input@.skip(
                    self.passed@.len() as int,
                )) by {
                    assert(self.buf@.subrange(self.pos as int, self.cap as int) =~= old(
                        self,
                    ).live() + bytes);
                }
            }
        }
    }

    /// Copies from the window into `dst` as much as both allow, and consumes
    /// what was copied.
    pub fn read(&mut self, dst: &mut [u8]) -> (n: usize)
        requires
            old(self).wf(),
            old(self)@.cursor_fits(),
        ensures
            n <= old(self)@.window().len(),
            n <= old(dst)@.len(),
            n == old(self)@.window().len() || n == old(dst)@.len(),
            final(dst)@ == old(self)@.window().take(n as int) + old(dst)@.skip(n as int),
            final(self).wf(),
            final(self)@ == old(self)@.passing(old(self)@.window().take(n as int)),
    {
        proof {
            self.lemma_wf(0);
        }
        let ghost window = self.live();
        let ghost target = dst@;
        let room = self.cap - self.pos;
        let n = if room < dst.len() {
            room
        } else {
            dst.len()
        };
        let mut i: usize = 0;
        while i < n
            invariant
                i <= n,
                n <= dst@.len(),
                n <= self.cap - self.pos,
                self.cap <= self.buf@.len(),
                dst@.len() == target.len(),
                window == self.buf@.subrange(self.pos as int, self.cap as int),
                forall|j: int| 0 <= j < i ==> dst@[j] == window[j],
                forall|j: int| i <= j < dst@.len() ==> dst@[j] == target[j],
            decreases n - i,
        {
            dst[i] = self.buf[self.pos + i];
            i += 1;
        }
        proof {
            assert(dst@ =~= window.take(n as int) + target.skip(n as int));
            self.lemma_wf(n as int);
        }
        self.pass(n);
        n
    }
}

} // verus!
