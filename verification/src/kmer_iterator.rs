//! The window layer of the pipeline: a sliding window of fixed length `k`
//! over each read, never crossing from one read into the next.

use crate::StringSource;
use vstd::prelude::*;
use vstd::string::StrSliceExecFns;

verus! {

/// The `k`-length windows of `read` from offset `i` on.  An offset yields a
/// window only while `offset + k` is strictly below the read's length: the
/// last in-range window is deliberately withheld, so a read of length
/// exactly `k` yields nothing.
pub open spec fn read_kmers_from(read: Seq<char>, k: int, i: int) -> Seq<Seq<char>> {
    if 0 <= i && i + k < read.len() {
        Seq::new((read.len() - k - i) as nat, |j: int| read.subrange(i + j, i + j + k))
    } else {
        Seq::empty()
    }
}

/// All windows of one read, in left-to-right order.
pub open spec fn read_kmers(read: Seq<char>, k: int) -> Seq<Seq<char>> {
    read_kmers_from(read, k, 0)
}

/// All windows of a read sequence: the windows of each read in order, reads
/// too short to hold a window past the boundary contributing nothing.
pub open spec fn kmers_of(reads: Seq<Seq<char>>, k: int) -> Seq<Seq<char>>
    decreases reads.len(),
{
    if reads.len() == 0 {
        Seq::empty()
    } else {
        read_kmers(reads[0], k) + kmers_of(reads.drop_first(), k)
    }
}

/// A sliding window of length `k` over a stream of reads.  Holds the read
/// the window currently moves over and the cursor offset into it.
pub struct KmerIterator<R: StringSource> {
    fasta_reads_iterator: R,
    k: usize,
    i: usize,
    current_read: Option<String>,
}

impl<R: StringSource> KmerIterator<R> {
    /// Wraps a read stream as a stream of its `k`-length windows.
    pub fn from(fasta_reads_iterator: R, k: usize) -> (r: Self)
        ensures
            r.items() == kmers_of(fasta_reads_iterator.items(), k as int),
    {
        KmerIterator { fasta_reads_iterator, k, i: 0, current_read: None }
    }
}

impl<R: StringSource> StringSource for KmerIterator<R> {
    closed spec fn items(&self) -> Seq<Seq<char>> {
        match self.current_read {
            Some(cr) => read_kmers_from(cr@, self.k as int, self.i as int) + kmers_of(
                self.fasta_reads_iterator.items(),
                self.k as int,
            ),
            None => kmers_of(self.fasta_reads_iterator.items(), self.k as int),
        }
    }

    fn next(&mut self) -> (r: Option<String>) {
        let mut cur: String;
        match &self.current_read {
            Some(rd) => {
                cur = rd.clone();
            },
            None => {
                let ghost r0 = self.fasta_reads_iterator.items();
                match self.fasta_reads_iterator.next() {
                    None => {
                        return None;
                    },
                    Some(rd) => {
                        cur = rd;
                        self.current_read = Some(cur.clone());
                        self.i = 0;
                        proof {
                            assert(kmers_of(r0, self.k as int) == read_kmers(r0[0], self.k as int)
                                + kmers_of(r0.drop_first(), self.k as int));
                        }
                    },
                }
            },
        }
        let mut len = cur.as_str().unicode_len();
        while self.i >= len || self.k >= len - self.i
            invariant
                self.current_read matches Some(cr) && cr@ == cur@,
                len == cur@.len(),
                self.k == old(self).k,
                self.items() == old(self).items(),
            decreases self.fasta_reads_iterator.items().len(),
        {
            self.i = 0;
            let ghost r1 = self.fasta_reads_iterator.items();
            match self.fasta_reads_iterator.next() {
                None => {
                    self.current_read = None;
                    return None;
                },
                Some(rd) => {
                    cur = rd;
                    self.current_read = Some(cur.clone());
                    len = cur.as_str().unicode_len();
                    proof {
                        assert(kmers_of(r1, self.k as int) == read_kmers(r1[0], self.k as int)
                            + kmers_of(r1.drop_first(), self.k as int));
                    }
                },
            }
        }
        let kmer = cur.as_str().substring_char(self.i, self.i + self.k).to_owned();
        let ghost i0 = self.i as int;
        let ghost k0 = self.k as int;
        self.i = self.i + 1;
        proof {
            let tail = kmers_of(self.fasta_reads_iterator.items(), k0);
            assert(read_kmers_from(cur@, k0, i0)[0] == cur@.subrange(i0, i0 + k0));
            assert(read_kmers_from(cur@, k0, i0).drop_first() =~= read_kmers_from(
                cur@,
                k0,
                i0 + 1,
            ));
            assert((read_kmers_from(cur@, k0, i0) + tail).drop_first()
                =~= read_kmers_from(cur@, k0, i0).drop_first() + tail);
        }
        Some(kmer)
    }
}

/// A read longer than the window contributes its windows in left-to-right
/// order, one per offset, each of length `k` and cut from that read alone;
/// the window at the last in-range offset is withheld, so the count is
/// `len - k`, and a read of length `k` or shorter contributes none.
pub proof fn lemma_read_kmer_windows(read: Seq<char>, k: int)
    requires
        0 <= k,
    ensures
        read.len() > k ==> read_kmers(read, k).len() == read.len() - k,
        read.len() <= k ==> read_kmers(read, k).len() == 0,
        forall|o: int|
            0 <= o < read_kmers(read, k).len() ==> (#[trigger] read_kmers(read, k)[o])
                == read.subrange(o, o + k),
        forall|o: int|
            0 <= o < read_kmers(read, k).len() ==> (#[trigger] read_kmers(read, k)[o]).len() == k,
{
    assert forall|o: int| 0 <= o < read_kmers(read, k).len() implies (#[trigger] read_kmers(
        read,
        k,
    )[o]) == read.subrange(o, o + k) && read_kmers(read, k)[o].len() == k by {
        assert(read_kmers_from(read, k, 0)[o] == read.subrange(o, o + k));
        assert(o + k < read.len());
    }
}

/// A read no longer than the window contributes nothing: it is skipped
/// whole, and extraction resumes cleanly at the next read.
pub proof fn lemma_short_read_skipped(reads: Seq<Seq<char>>, n: int, k: int)
    requires
        0 <= n < reads.len(),
        reads[n].len() <= k,
    ensures
        kmers_of(reads, k) == kmers_of(reads.remove(n), k),
    decreases reads.len(),
{
    if n == 0 {
        assert(read_kmers(reads[0], k) =~= Seq::<Seq<char>>::empty());
        assert(reads.remove(0) =~= reads.drop_first());
        assert(Seq::<Seq<char>>::empty() + kmers_of(reads.drop_first(), k) =~= kmers_of(
            reads.drop_first(),
            k,
        ));
    } else {
        lemma_short_read_skipped(reads.drop_first(), n - 1, k);
        assert(reads.remove(n).drop_first() =~= reads.drop_first().remove(n - 1));
        assert(reads.remove(n)[0] == reads[0]);
    }
}

/// Windows are taken strictly per read: splitting a read stream anywhere
/// splits its window stream at a read boundary, so no window mixes the
/// content of two reads and extraction restarts afresh on each read.
pub proof fn lemma_kmers_split_at_read_boundary(a: Seq<Seq<char>>, b: Seq<Seq<char>>, k: int)
    ensures
        kmers_of(a + b, k) == kmers_of(a, k) + kmers_of(b, k),
    decreases a.len(),
{
    if a.len() == 0 {
        assert(a + b =~= b);
        assert(Seq::<Seq<char>>::empty() + kmers_of(b, k) =~= kmers_of(b, k));
    } else {
        lemma_kmers_split_at_read_boundary(a.drop_first(), b, k);
        assert((a + b).drop_first() =~= a.drop_first() + b);
        assert((a + b)[0] == a[0]);
        assert(read_kmers(a[0], k) + (kmers_of(a.drop_first(), k) + kmers_of(b, k)) =~= (read_kmers(
            a[0],
            k,
        ) + kmers_of(a.drop_first(), k)) + kmers_of(b, k));
    }
}

/// Whether `w` is a window cut whole from a single read of `reads`.
pub open spec fn is_window_of(reads: Seq<Seq<char>>, k: int, w: Seq<char>) -> bool {
    exists|ri: int, o: int|
        0 <= ri < reads.len() && 0 <= o && o + k < reads[ri].len() && w == (
        #[trigger] reads[ri].subrange(o, o + k))
}

/// Every window in the combined stream is cut from one read alone: a window
/// never crosses from one read into the next.
pub proof fn lemma_kmer_within_one_read(reads: Seq<Seq<char>>, k: int, n: int)
    requires
        0 <= k,
        0 <= n < kmers_of(reads, k).len(),
    ensures
        is_window_of(reads, k, kmers_of(reads, k)[n]),
    decreases reads.len(),
{
    let head = read_kmers(reads[0], k);
    if n < head.len() {
        assert(kmers_of(reads, k)[n] == head[n]);
        assert(0 <= 0 < reads.len() && 0 <= n && n + k < reads[0].len() && head[n]
            == reads[0].subrange(n, n + k));
    } else {
        let rest = reads.drop_first();
        lemma_kmer_within_one_read(rest, k, n - head.len());
        let (ri, o) = choose|ri: int, o: int|
            0 <= ri < rest.len() && 0 <= o && o + k < rest[ri].len() && kmers_of(rest, k)[n
                - head.len()] == (#[trigger] rest[ri].subrange(o, o + k));
        assert(kmers_of(reads, k)[n] == kmers_of(rest, k)[n - head.len()]);
        assert(0 <= ri + 1 < reads.len() && 0 <= o && o + k < reads[ri + 1].len() && kmers_of(
            reads,
            k,
        )[n] == reads[ri + 1].subrange(o, o + k));
    }
}

} // verus!
