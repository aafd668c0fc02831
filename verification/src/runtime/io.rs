//! The input and output of a running program.
use vstd::prelude::*;

verus! {

/// Where a program reads its input from and writes its output to.
pub trait Io {
    /// Reads one line of input, without the line feed that ends it.
    fn read_line(&mut self) -> String;

    /// Writes `s` as it is; nothing is added to it.
    fn write(&mut self, s: &str);
}

/// An input and output that keeps a record of its use: the lines it has
/// handed out and the chunks it was given. The record says nothing of
/// which line comes next.
pub trait TracedIo {
    /// The lines that `read_line` has returned so far, oldest first.
    spec fn lines_read(&self) -> Seq<Seq<char>>;

    /// The chunks that were handed to `write` so far, oldest first.
    spec fn written(&self) -> Seq<Seq<char>>;

    /// Reads one line of input, without the line feed that ends it.
    fn read_line(&mut self) -> (line: String)
        ensures
            final(self).lines_read() == old(self).lines_read().push(line@),
            final(self).written() == old(self).written(),
    ;

    /// Writes `s` as it is; nothing is added to it.
    fn write(&mut self, s: &str)
        ensures
            final(self).written() == old(self).written().push(s@),
            final(self).lines_read() == old(self).lines_read(),
    ;
}

/// An input and output with the record of what was asked of it since the
/// record began.
pub struct Traced<'a, T: Io> {
    /// The input and output itself.
    pub io: &'a mut T,
    /// The lines received from it, oldest first.
    pub lines: Ghost<Seq<Seq<char>>>,
    /// The chunks handed to it, oldest first.
    pub chunks: Ghost<Seq<Seq<char>>>,
}

impl<'a, T: Io> Traced<'a, T> {
    /// Begins an empty record of the use of `io`.
    pub fn new(io: &'a mut T) -> (traced: Traced<'a, T>)
        ensures
            traced.lines_read() == Seq::<Seq<char>>::empty(),
            traced.written() == Seq::<Seq<char>>::empty(),
    {
        Traced { io, lines: Ghost(Seq::empty()), chunks: Ghost(Seq::empty()) }
    }
}

impl<'a, T: Io> TracedIo for Traced<'a, T> {
    open spec fn lines_read(&self) -> Seq<Seq<char>> {
        self.lines@
    }

    open spec fn written(&self) -> Seq<Seq<char>> {
        self.chunks@
    }

    fn read_line(&mut self) -> (line: String) {
        let line = self.io.read_line();
        self.lines = Ghost(self.lines@.push(line@));
        line
    }

    fn write(&mut self, s: &str) {
        self.io.write(s);
        self.chunks = Ghost(self.chunks@.push(s@));
    }
}

/// Input and output held in memory: the lines to read are given in advance
/// and what is written is kept.
pub struct MemoryIo {
    input: Vec<String>,
    next: usize,
    output: Vec<String>,
    handed_out: Ghost<Seq<Seq<char>>>,
}

impl MemoryIo {
    /// The lines that are still to be read, next first.
    pub closed spec fn pending(&self) -> Seq<Seq<char>> {
        if self.next <= self.input.len() {
            self.input@.skip(self.next as int).map_values(|line: String| line@)
        } else {
            Seq::empty()
        }
    }

    /// An input of the lines `input` and an empty output.
    pub fn new(input: Vec<String>) -> (io: MemoryIo)
        ensures
            io.pending() == input@.map_values(|line: String| line@),
            io.lines_read() == Seq::<Seq<char>>::empty(),
            io.written() == Seq::<Seq<char>>::empty(),
    {
        let io = MemoryIo { input, next: 0, output: Vec::new(), handed_out: Ghost(Seq::empty()) };
        assert(io.pending() =~= input@.map_values(|line: String| line@));
        assert(io.written() =~= Seq::<Seq<char>>::empty());
        io
    }

    /// The chunks written so far, oldest first.
    pub fn output(&self) -> (chunks: Vec<String>)
        ensures
            chunks@.map_values(|chunk: String| chunk@) == self.written(),
    {
        let mut chunks: Vec<String> = Vec::new();
        let mut i: usize = 0;
        while i < self.output.len()
            invariant
                i <= self.output.len(),
                chunks@.map_values(|chunk: String| chunk@) == self.output@.map_values(
                    |chunk: String| chunk@,
                ).take(i as int),
            decreases self.output.len() - i,
        {
            let ghost before = chunks@.map_values(|chunk: String| chunk@);
            let chunk = self.output[i].clone();
            assert(chunk@ == self.output@[i as int]@);
            chunks.push(chunk);
            assert(chunks@.map_values(|chunk: String| chunk@) =~= before.push(
                self.output@[i as int]@,
            ));
            i += 1;
            assert(before.push(self.output@[i - 1]@) =~= self.output@.map_values(
                |chunk: String| chunk@,
            ).take(i as int));
        }
        assert(chunks@.map_values(|chunk: String| chunk@) =~= self.written());
        chunks
    }
}

impl TracedIo for MemoryIo {
    closed spec fn lines_read(&self) -> Seq<Seq<char>> {
        self.handed_out@
    }

    closed spec fn written(&self) -> Seq<Seq<char>> {
        self.output@.map_values(|chunk: String| chunk@)
    }

    /// The next pending line; the empty line once the input is used up.
    fn read_line(&mut self) -> (line: String)
        ensures
            old(self).pending().len() > 0 ==> line@ == old(self).pending()[0],
            old(self).pending().len() > 0 ==> final(self).pending() == old(self).pending().skip(1),
            old(self).pending().len() == 0 ==> line@ == Seq::<char>::empty(),
            old(self).pending().len() == 0 ==> final(self).pending() == old(self).pending(),
    {
        if self.next < self.input.len() {
            let line = self.input[self.next].clone();
            self.next = self.next + 1;
            self.handed_out = Ghost(self.handed_out@.push(line@));
            assert(self.pending() =~= old(self).pending().skip(1));
            line
        } else {
            let line = String::new();
            self.handed_out = Ghost(self.handed_out@.push(line@));
            line
        }
    }

    fn write(&mut self, s: &str) {
        let ghost before = self.output@.map_values(|chunk: String| chunk@);
        self.output.push(String::from_str(s));
        assert(self.output@.map_values(|chunk: String| chunk@) =~= before.push(s@));
    }
}

} // verus!
