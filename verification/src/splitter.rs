//! The streaming splitter's decision engine.
//!
//! A caller that reads the input line by line and owns the output files
//! drives a `Splitter`: it reports each line and is told whether to
//! discard it, write it to the open chunk, or first close that chunk and
//! create the next one. The counters agree at every step with the
//! partition model in `split`: the `k`-th post-skip line is placed in
//! chunk `k / lines_per_chunk`, at offset `k % lines_per_chunk`.

use vstd::prelude::*;
use vstd::arithmetic::div_mod::*;
use crate::split::num_chunks;

verus! {

/// The ways a split operation can fail; each names the I/O step that
/// failed. The library computes decisions and names only: the caller that
/// performs the I/O reports failures in these terms.
#[derive(Clone, Copy, Debug, PartialEq, Eq, Structural)]
pub enum SplitError {
    /// The input file could not be opened.
    OpenFailed,
    /// A read from the input failed mid-stream.
    ReadFailed,
    /// An output chunk's file could not be created.
    ChunkCreateFailed,
    /// Writing a line to the current chunk failed.
    WriteFailed,
    /// Flushing or closing a chunk failed.
    FlushFailed,
}

impl SplitError {
    /// A short description of the failure, for messages to an operator.
    pub fn describe(&self) -> (m: &'static str)
        ensures
            *self == SplitError::OpenFailed ==> m@ == "could not open the input file"@,
            *self == SplitError::ReadFailed ==> m@ == "could not read a line from the input"@,
            *self == SplitError::ChunkCreateFailed ==> m@ == "could not create an output chunk"@,
            *self == SplitError::WriteFailed ==> m@ == "could not write to the current chunk"@,
            *self == SplitError::FlushFailed ==> m@ == "could not flush a finished chunk"@,
    {
        match self {
            SplitError::OpenFailed => "could not open the input file",
            SplitError::ReadFailed => "could not read a line from the input",
            SplitError::ChunkCreateFailed => "could not create an output chunk",
            SplitError::WriteFailed => "could not write to the current chunk",
            SplitError::FlushFailed => "could not flush a finished chunk",
        }
    }
}

/// What the caller must do with the line it just read.
#[derive(Clone, Copy, Debug, PartialEq, Eq, Structural)]
pub enum LineAction {
    /// Drop the line: it is the skipped first line of the input.
    Discard,
    /// Write the line to the chunk that is currently open.
    Write,
    /// Close the current chunk, create the file for chunk `next_chunk`,
    /// and write the line there.
    RotateThenWrite { next_chunk: u32 },
}

/// The split state: how far into the input the stream is, how full the
/// open chunk is, and which chunk is open. Chunk files are created
/// lazily: the file for the next chunk appears only when a line for it
/// arrives, so a stream whose length is an exact multiple of the
/// threshold leaves no empty trailing chunk behind.
pub struct Splitter {
    /// Lines per full chunk; at least 1.
    pub lines_per_chunk: u32,
    /// Whether the input's first line is discarded.
    pub skip_first: bool,
    /// Lines consumed from the input so far.
    pub cur_line: u64,
    /// Lines written to the chunk that is currently open.
    pub line_temp: u32,
    /// Index of the chunk that is currently open.
    pub cur_file_idx: u32,
}

impl Splitter {
    /// Post-skip lines written so far.
    pub open spec fn written(self) -> nat {
        if self.skip_first && self.cur_line > 0 {
            (self.cur_line - 1) as nat
        } else {
            self.cur_line as nat
        }
    }

    /// The counters are consistent: every chunk before the open one was
    /// filled exactly, and the open chunk holds the remainder.
    pub open spec fn wf(self) -> bool {
        &&& self.lines_per_chunk >= 1
        &&& if self.written() == 0 {
            self.cur_file_idx == 0 && self.line_temp == 0
        } else {
            &&& self.written() == self.cur_file_idx * self.lines_per_chunk + self.line_temp
            &&& 1 <= self.line_temp <= self.lines_per_chunk
        }
    }

    /// A splitter at the start of the input, with chunk 0 open and empty.
    pub fn new(lines_per_chunk: u32, skip_first: bool) -> (s: Splitter)
        requires
            lines_per_chunk >= 1,
        ensures
            s.wf(),
            s.lines_per_chunk == lines_per_chunk,
            s.skip_first == skip_first,
            s.cur_line == 0,
            s.line_temp == 0,
            s.cur_file_idx == 0,
    {
        Splitter { lines_per_chunk, skip_first, cur_line: 0, line_temp: 0, cur_file_idx: 0 }
    }

    /// Decides what to do with the next line of the input. The non-skipped
    /// line number `k = old(self).written()` is directed to chunk
    /// `k / lines_per_chunk`, at offset `k % lines_per_chunk` within it,
    /// rotating to a new chunk exactly when the open one is full.
    pub fn on_line(&mut self) -> (a: LineAction)
        requires
            old(self).wf(),
            old(self).cur_line < u64::MAX,
            old(self).line_temp == old(self).lines_per_chunk ==> old(self).cur_file_idx
                < u32::MAX,
        ensures
            final(self).wf(),
            final(self).lines_per_chunk == old(self).lines_per_chunk,
            final(self).skip_first == old(self).skip_first,
            final(self).cur_line == old(self).cur_line + 1,
            (a is Discard) <==> (old(self).cur_line == 0 && old(self).skip_first),
            a is Discard ==> final(self).line_temp == old(self).line_temp,
            a is Discard ==> final(self).cur_file_idx == old(self).cur_file_idx,
            a is Discard ==> final(self).written() == 0,
            !(a is Discard) ==> final(self).written() == old(self).written() + 1,
            !(a is Discard) ==> final(self).cur_file_idx as nat == old(self).written() / (old(
                self).lines_per_chunk as nat),
            !(a is Discard) ==> final(self).line_temp as nat - 1 == old(self).written() % (old(
                self).lines_per_chunk as nat),
            (a is RotateThenWrite) <==> (!(a is Discard) && old(self).line_temp == old(
                self).lines_per_chunk),
            a matches LineAction::RotateThenWrite { next_chunk } ==> next_chunk == final(
                self).cur_file_idx,
            a is RotateThenWrite ==> final(self).cur_file_idx == old(self).cur_file_idx + 1,
            a is RotateThenWrite ==> final(self).line_temp == 1,
            a is Write ==> final(self).cur_file_idx == old(self).cur_file_idx,
            a is Write ==> final(self).line_temp == old(self).line_temp + 1,
    {
        let ghost n = old(self).lines_per_chunk as int;
        let ghost k = old(self).written() as int;
        let discard = self.cur_line == 0 && self.skip_first;
        self.cur_line = self.cur_line + 1;
        if discard {
            LineAction::Discard
        } else if self.line_temp == self.lines_per_chunk {
            let ghost c = old(self).cur_file_idx as int;
            self.cur_file_idx = self.cur_file_idx + 1;
            self.line_temp = 1;
            proof {
                assert(k == (c + 1) * n + 0) by (nonlinear_arith)
                    requires
                        k == c * n + n,
                ;
                lemma_fundamental_div_mod_converse_div(k, n, c + 1, 0);
                lemma_fundamental_div_mod_converse_mod(k, n, c + 1, 0);
            }
            LineAction::RotateThenWrite { next_chunk: self.cur_file_idx }
        } else {
            let ghost c = old(self).cur_file_idx as int;
            let ghost lt = old(self).line_temp as int;
            self.line_temp = self.line_temp + 1;
            proof {
                if old(self).written() == 0 {
                    assert(c == 0 && lt == 0);
                    assert(k == 0);
                    assert(c * n == 0) by (nonlinear_arith)
                        requires
                            c == 0,
                    ;
                } else {
                    assert(old(self).written() == old(self).cur_file_idx * old(
                        self).lines_per_chunk + old(self).line_temp);
                }
                assert(k == c * n + lt);
                lemma_fundamental_div_mod_converse_div(k, n, c, lt);
                lemma_fundamental_div_mod_converse_mod(k, n, c, lt);
            }
            LineAction::Write
        }
    }

    /// Number of chunk files begun so far, the open one included: exactly
    /// the model's chunk count for the lines written so far.
    pub fn chunk_count(&self) -> (k: u32)
        requires
            self.wf(),
            self.cur_file_idx < u32::MAX,
        ensures
            k == self.cur_file_idx + 1,
            k == num_chunks(self.written(), self.lines_per_chunk as nat),
    {
        proof {
            let n = self.lines_per_chunk as int;
            let t = self.written() as int;
            if t > 0 {
                lemma_fundamental_div_mod_converse_div(
                    t - 1,
                    n,
                    self.cur_file_idx as int,
                    self.line_temp - 1,
                );
            }
        }
        self.cur_file_idx + 1
    }
}

} // verus!
