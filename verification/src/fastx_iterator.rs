//! The read layer of the pipeline: three state machines that turn a stream
//! of lines into a stream of reads, for strict two-line FASTA, multi-line
//! (wrapped) FASTA, and four-line FASTQ records.

use crate::StringSource;
use vstd::prelude::*;
use vstd::string::StrSliceExecFns;
use vstd::string::StringExecFns;

verus! {

/// A FASTA record boundary: a line opening with the `'>'` marker.
pub open spec fn is_header(line: Seq<char>) -> bool {
    line.len() > 0 && line[0] == '>'
}

/// Whether `line` opens with the `'>'` record marker.
fn starts_with_marker(line: &String) -> (r: bool)
    ensures
        r == is_header(line@),
{
    line.as_str().unicode_len() > 0 && line.as_str().get_char(0) == '>'
}

/// The reads of a strict two-line FASTA line sequence: every odd-positioned
/// line, each even-positioned line being discarded as a header.  A trailing
/// lone line yields nothing.
pub open spec fn simple_fasta_reads_of(lines: Seq<Seq<char>>) -> Seq<Seq<char>>
    decreases lines.len(),
{
    if lines.len() < 2 {
        Seq::empty()
    } else {
        seq![lines[1]] + simple_fasta_reads_of(lines.skip(2))
    }
}

/// The reads of a four-line FASTQ line sequence: the second line of each
/// record, with header, separator and quality lines discarded.  A trailing
/// partial record yields nothing.
pub open spec fn fastq_reads_of(lines: Seq<Seq<char>>) -> Seq<Seq<char>>
    decreases lines.len(),
{
    if lines.len() < 4 {
        Seq::empty()
    } else {
        seq![lines[1]] + fastq_reads_of(lines.skip(4))
    }
}

/// The reads of a multi-line FASTA line sequence: after a discarded header,
/// the first body line and every following line up to the next `'>'` header
/// (or the end) are concatenated into one read.  A header with no body line
/// at the very end yields nothing.
pub open spec fn fasta_reads_of(lines: Seq<Seq<char>>) -> Seq<Seq<char>>
    decreases lines.len(), 0int,
{
    if lines.len() < 2 {
        Seq::empty()
    } else {
        fasta_accum(lines[1], lines.skip(2))
    }
}

/// The reads still to come while a read body `acc` is being accumulated and
/// `rest` is the remaining line stream: body lines extend `acc` until a
/// header line closes the read, or the end of the stream closes it.
pub open spec fn fasta_accum(acc: Seq<char>, rest: Seq<Seq<char>>) -> Seq<Seq<char>>
    decreases rest.len(), 1int,
{
    if rest.len() == 0 {
        seq![acc]
    } else if is_header(rest[0]) {
        seq![acc] + fasta_reads_of(rest)
    } else {
        fasta_accum(acc + rest[0], rest.drop_first())
    }
}

/// Reads of a FASTA file whose records are strictly two lines each: a header
/// line, then the whole read on a single line.
pub struct SimpleFastaReadsIterator<L: StringSource> {
    lines_iterator: L,
}

impl<L: StringSource> SimpleFastaReadsIterator<L> {
    /// Wraps a line stream as a strict two-line FASTA read stream.
    pub fn from(lines_iterator: L) -> (r: Self)
        ensures
            r.items() == simple_fasta_reads_of(lines_iterator.items()),
    {
        SimpleFastaReadsIterator { lines_iterator }
    }
}

impl<L: StringSource> StringSource for SimpleFastaReadsIterator<L> {
    closed spec fn items(&self) -> Seq<Seq<char>> {
        simple_fasta_reads_of(self.lines_iterator.items())
    }

    fn next(&mut self) -> (r: Option<String>) {
        let ghost l0 = self.lines_iterator.items();
        let first = self.lines_iterator.next();
        if first.is_none() {
            return None;
        }
        let second = self.lines_iterator.next();
        proof {
            if l0.len() >= 2 {
                assert(l0.drop_first()[0] == l0[1]);
                assert(l0.drop_first().drop_first() =~= l0.skip(2));
                assert((seq![l0[1]] + simple_fasta_reads_of(l0.skip(2))).drop_first()
                    =~= simple_fasta_reads_of(l0.skip(2)));
            }
        }
        second
    }
}

/// Reads of a FASTA file whose reads may wrap over several lines: all body
/// lines between two headers are merged into one read.  Keeps a one-line
/// lookahead (the header that closed the previous read) and an end flag.
pub struct FastaReadsIterator<L: StringSource> {
    lines_iterator: L,
    next_line: Option<String>,
    end_reached: bool,
}

impl<L: StringSource> FastaReadsIterator<L> {
    /// Wraps a line stream as a multi-line-aware FASTA read stream.
    pub fn from(lines_iterator: L) -> (r: Self)
        ensures
            r.items() == fasta_reads_of(lines_iterator.items()),
    {
        FastaReadsIterator { lines_iterator, next_line: None, end_reached: false }
    }

    /// The line stream as the state machine sees it: the saved lookahead
    /// line, if any, back in front of the remaining lines.
    pub closed spec fn pending_lines(&self) -> Seq<Seq<char>> {
        match self.next_line {
            Some(l) => seq![l@] + self.lines_iterator.items(),
            None => self.lines_iterator.items(),
        }
    }
}

impl<L: StringSource> StringSource for FastaReadsIterator<L> {
    closed spec fn items(&self) -> Seq<Seq<char>> {
        if self.end_reached {
            Seq::empty()
        } else {
            fasta_reads_of(self.pending_lines())
        }
    }

    fn next(&mut self) -> (r: Option<String>) {
        if self.end_reached {
            return None;
        }
        let ghost p0 = self.pending_lines();
        // the header line: taken from the lookahead slot if the previous call
        // saved one there, else pulled fresh; either way it is discarded
        if self.next_line.is_some() {
            self.next_line = None;
        } else {
            match self.lines_iterator.next() {
                None => {
                    return None;
                },
                Some(_first) => {},
            }
        }
        proof {
            if p0.len() >= 1 {
                assert(self.lines_iterator.items() =~= p0.drop_first());
            }
        }
        // the first body line is taken unconditionally, marker or not
        let mut merge: String;
        match self.lines_iterator.next() {
            None => {
                return None;
            },
            Some(second) => {
                merge = second;
            },
        }
        proof {
            assert(p0.len() >= 2);
            assert(merge@ == p0[1]);
            assert(self.lines_iterator.items() =~= p0.skip(2));
        }
        loop
            invariant_except_break
                !self.end_reached,
            invariant
                self.next_line is None,
                old(self).items() == fasta_accum(merge@, self.lines_iterator.items()),
            ensures
                self.end_reached,
                self.next_line is None,
                self.lines_iterator.items().len() == 0,
            decreases self.lines_iterator.items().len(),
        {
            let ghost l1 = self.lines_iterator.items();
            match self.lines_iterator.next() {
                None => {
                    self.end_reached = true;
                    break ;
                },
                Some(x) => {
                    if starts_with_marker(&x) {
                        proof {
                            assert(l1[0] == x@);
                            assert(seq![x@] + self.lines_iterator.items() =~= l1);
                            assert((seq![merge@] + fasta_reads_of(l1)).drop_first()
                                =~= fasta_reads_of(l1));
                        }
                        self.next_line = Some(x);
                        return Some(merge);
                    } else {
                        proof {
                            assert(l1[0] == x@);
                            assert(self.lines_iterator.items() =~= l1.drop_first());
                        }
                        merge.append(x.as_str());
                    }
                },
            }
        }
        proof {
            assert(old(self).items() == seq![merge@]);
            assert(seq![merge@].drop_first() =~= Seq::<Seq<char>>::empty());
        }
        Some(merge)
    }
}

/// Reads of a FASTQ file: strict four-line records whose second line is the
/// read; header, separator and quality lines are discarded unvalidated.
pub struct FastqReadsIterator<L: StringSource> {
    lines_iterator: L,
}

impl<L: StringSource> FastqReadsIterator<L> {
    /// Wraps a line stream as a FASTQ read stream.
    pub fn from(lines_iterator: L) -> (r: Self)
        ensures
            r.items() == fastq_reads_of(lines_iterator.items()),
    {
        FastqReadsIterator { lines_iterator }
    }
}

impl<L: StringSource> StringSource for FastqReadsIterator<L> {
    closed spec fn items(&self) -> Seq<Seq<char>> {
        fastq_reads_of(self.lines_iterator.items())
    }

    fn next(&mut self) -> (r: Option<String>) {
        let ghost l0 = self.lines_iterator.items();
        let first = self.lines_iterator.next();
        if first.is_none() {
            return None;
        }
        let second = self.lines_iterator.next();
        if second.is_none() {
            return None;
        }
        let third = self.lines_iterator.next();
        if third.is_none() {
            return None;
        }
        let fourth = self.lines_iterator.next();
        if fourth.is_none() {
            return None;
        }
        proof {
            assert(l0.len() >= 4);
            assert(l0.drop_first()[0] == l0[1]);
            assert(l0.drop_first().drop_first().drop_first().drop_first() =~= l0.skip(4));
            assert((seq![l0[1]] + fastq_reads_of(l0.skip(4))).drop_first()
                =~= fastq_reads_of(l0.skip(4)));
        }
        second
    }
}

/// Each strict two-line record contributes its second line: there are
/// `⌊lines / 2⌋` reads and read `n` is line `2n + 1`.
pub proof fn lemma_simple_fasta_read_positions(lines: Seq<Seq<char>>)
    ensures
        simple_fasta_reads_of(lines).len() == lines.len() / 2,
        forall|n: int|
            0 <= n < lines.len() / 2 ==> (#[trigger] simple_fasta_reads_of(lines)[n]) == lines[2 * n
                + 1],
    decreases lines.len(),
{
    if lines.len() >= 2 {
        lemma_simple_fasta_read_positions(lines.skip(2));
        assert forall|n: int| 0 <= n < lines.len() / 2 implies (#[trigger] simple_fasta_reads_of(
            lines,
        )[n]) == lines[2 * n + 1] by {
            if n > 0 {
                assert(simple_fasta_reads_of(lines)[n] == simple_fasta_reads_of(lines.skip(2))[n
                    - 1]);
                assert(lines.skip(2)[2 * (n - 1) + 1] == lines[2 * n + 1]);
            }
        }
    }
}

/// Each four-line FASTQ record contributes its second line: there are
/// `⌊lines / 4⌋` reads and read `n` is line `4n + 1`.
pub proof fn lemma_fastq_read_positions(lines: Seq<Seq<char>>)
    ensures
        fastq_reads_of(lines).len() == lines.len() / 4,
        forall|n: int|
            0 <= n < lines.len() / 4 ==> (#[trigger] fastq_reads_of(lines)[n]) == lines[4 * n + 1],
    decreases lines.len(),
{
    if lines.len() >= 4 {
        lemma_fastq_read_positions(lines.skip(4));
        assert forall|n: int| 0 <= n < lines.len() / 4 implies (#[trigger] fastq_reads_of(
            lines,
        )[n]) == lines[4 * n + 1] by {
            if n > 0 {
                assert(fastq_reads_of(lines)[n] == fastq_reads_of(lines.skip(4))[n - 1]);
                assert(lines.skip(4)[4 * (n - 1) + 1] == lines[4 * n + 1]);
            }
        }
    }
}

/// On a FASTA line sequence whose reads all sit on a single line — a record
/// boundary at every other line — the multi-line-aware extractor and the
/// strict two-line extractor yield identical reads.
pub proof fn lemma_fasta_matches_simple(lines: Seq<Seq<char>>)
    requires
        lines.len() % 2 == 0,
        forall|n: int| 2 <= n < lines.len() && n % 2 == 0 ==> is_header(#[trigger] lines[n]),
    ensures
        fasta_reads_of(lines) == simple_fasta_reads_of(lines),
    decreases lines.len(),
{
    if lines.len() < 2 {
    } else if lines.len() == 2 {
        assert(lines.skip(2) =~= Seq::<Seq<char>>::empty());
        assert(fasta_accum(lines[1], lines.skip(2)) == seq![lines[1]]);
        assert(seq![lines[1]] =~= seq![lines[1]] + simple_fasta_reads_of(lines.skip(2)));
    } else {
        assert forall|n: int|
            2 <= n < lines.skip(2).len() && n % 2 == 0 implies is_header(
            #[trigger] lines.skip(2)[n],
        ) by {
            assert(lines.skip(2)[n] == lines[n + 2]);
        }
        lemma_fasta_matches_simple(lines.skip(2));
        assert(is_header(lines.skip(2)[0]));
        assert(fasta_accum(lines[1], lines.skip(2)) == seq![lines[1]] + fasta_reads_of(
            lines.skip(2),
        ));
    }
}

} // verus!
