//! A streaming FASTA/FASTQ parser with transparent gzip support, and a small
//! pipeline of derived transformations: fixed-length window ("k-mer")
//! extraction from reads, and 64-bit fingerprinting of the windows.
//!
//! Data flows strictly downstream: bytes become lines, lines become reads,
//! reads become windows, windows become hashes.  Every stage is a pull-based
//! state machine: its view is the sequence of elements it has still to yield,
//! and each pull yields exactly the head of that view.

use vstd::prelude::*;

mod fastx_iterator;
mod hash_iterator;
mod kmer_iterator;
mod lines_iterator;

pub use crate::fastx_iterator::FastaReadsIterator;
pub use crate::fastx_iterator::FastqReadsIterator;
pub use crate::fastx_iterator::SimpleFastaReadsIterator;
pub use crate::fastx_iterator::fasta_accum;
pub use crate::fastx_iterator::fasta_reads_of;
pub use crate::fastx_iterator::fastq_reads_of;
pub use crate::fastx_iterator::is_header;
pub use crate::fastx_iterator::lemma_fasta_matches_simple;
pub use crate::fastx_iterator::lemma_fastq_read_positions;
pub use crate::fastx_iterator::lemma_simple_fasta_read_positions;
pub use crate::fastx_iterator::simple_fasta_reads_of;
pub use crate::hash_iterator::HashIterator;
pub use crate::hash_iterator::hashes_of;
pub use crate::hash_iterator::hashes_of_data;
pub use crate::hash_iterator::lemma_gzip_hashes_transparent;
pub use crate::hash_iterator::lemma_hash_deterministic;
pub use crate::hash_iterator::xxh3_of;
pub use crate::kmer_iterator::KmerIterator;
pub use crate::kmer_iterator::is_window_of;
pub use crate::kmer_iterator::kmers_of;
pub use crate::kmer_iterator::lemma_kmer_within_one_read;
pub use crate::kmer_iterator::lemma_kmers_split_at_read_boundary;
pub use crate::kmer_iterator::lemma_read_kmer_windows;
pub use crate::kmer_iterator::lemma_short_read_skipped;
pub use crate::kmer_iterator::read_kmers;
pub use crate::kmer_iterator::read_kmers_from;
pub use crate::lines_iterator::DecodeError;
pub use crate::lines_iterator::LinesIterator;
pub use crate::lines_iterator::gunzip_of;
pub use crate::lines_iterator::lemma_gzip_text_transparent;
pub use crate::lines_iterator::lines_from;
pub use crate::lines_iterator::lines_from_data;
pub use crate::lines_iterator::lines_of;
pub use crate::lines_iterator::split_lines;
pub use crate::lines_iterator::text_of_data;

verus! {

/// A pull-based source of text items: the lines of a file, the reads of a
/// record stream, or the windows cut from those reads.
///
/// `items()` is the sequence of strings the source has still to yield.  Each
/// call to `next` yields the head of `items()` and drops it from the view, or
/// yields nothing once the view is empty.
pub trait StringSource {
    spec fn items(&self) -> Seq<Seq<char>>;

    fn next(&mut self) -> (r: Option<String>)
        ensures
            old(self).items().len() == 0 ==> r is None && final(self).items() == old(
                self,
            ).items(),
            old(self).items().len() > 0 ==> (r matches Some(s) && s@ == old(self).items()[0]
                && final(self).items() == old(self).items().drop_first()),
    ;
}

} // verus!
