//! The hash layer of the pipeline: a 64-bit fingerprint for each window,
//! computed by a fixed, seedless, non-cryptographic digest.

use crate::StringSource;
use crate::kmer_iterator::kmers_of;
use crate::lines_iterator::gunzip_of;
use crate::lines_iterator::lemma_gzip_text_transparent;
use crate::lines_iterator::lines_of;
use crate::lines_iterator::text_of_data;
use vstd::prelude::*;

verus! {

/// The 64-bit digest of a string's content.  It is a function of the
/// characters alone: the same content gives the same digest, wherever the
/// content came from.
pub uninterp spec fn xxh3_of(s: Seq<char>) -> u64;

/// Relies on xxhash_rust::xxh3::xxh3_64: a seedless digest of the string's
/// UTF-8 bytes, determined by the input bytes alone, so by the characters
/// alone.
#[verifier::external_body]
fn xxh3_hash(s: &String) -> (r: u64)
    ensures
        r == xxh3_of(s@),
{
    xxhash_rust::xxh3::xxh3_64(s.as_bytes())
}

/// The digests of a window sequence, in order.
pub open spec fn hashes_of(items: Seq<Seq<char>>) -> Seq<u64> {
    items.map_values(|s: Seq<char>| xxh3_of(s))
}

/// A stream of the 64-bit digests of the items of a string stream.
pub struct HashIterator<I: StringSource> {
    kmers: I,
}

impl<I: StringSource> View for HashIterator<I> {
    type V = Seq<u64>;

    /// The digests still to be yielded.
    closed spec fn view(&self) -> Seq<u64> {
        hashes_of(self.kmers.items())
    }
}

impl<I: StringSource> HashIterator<I> {
    /// Wraps a string stream as the stream of its items' digests.
    pub fn from(kmers: I) -> (r: Self)
        ensures
            r@ == hashes_of(kmers.items()),
    {
        HashIterator { kmers }
    }

    /// Yields the digest of the next item, or nothing once the underlying
    /// stream is exhausted.
    pub fn next(&mut self) -> (r: Option<u64>)
        ensures
            old(self)@.len() == 0 ==> r is None && final(self)@ == old(self)@,
            old(self)@.len() > 0 ==> (r matches Some(h) && h == old(self)@[0] && final(self)@
                == old(self)@.drop_first()),
    {
        let ghost k0 = self.kmers.items();
        match self.kmers.next() {
            None => None,
            Some(kmer) => {
                proof {
                    assert(hashes_of(k0.drop_first()) =~= hashes_of(k0).drop_first());
                }
                Some(xxh3_hash(&kmer))
            },
        }
    }
}

/// Hashing is deterministic: equal window content gives an equal digest,
/// on every pull and whatever the windows were cut from.  Distinct content
/// may still collide; nothing is claimed against that.
pub proof fn lemma_hash_deterministic(a: Seq<char>, b: Seq<char>)
    requires
        a == b,
    ensures
        xxh3_of(a) == xxh3_of(b),
{
}

/// The whole pipeline over a file's bytes: lines of the decoded text, reads
/// by the given extractor, `k`-length windows, digests.  Nothing when the
/// bytes do not decode to text.
pub open spec fn hashes_of_data(
    data: Seq<u8>,
    gzipped: bool,
    extract: spec_fn(Seq<Seq<char>>) -> Seq<Seq<char>>,
    k: int,
) -> Option<Seq<u64>> {
    match text_of_data(data, gzipped) {
        None => None,
        Some(t) => Some(hashes_of(kmers_of(extract(lines_of(t)), k))),
    }
}

/// Compression is transparent to the whole pipeline: a file and its
/// gzip-compressed form produce the same hash sequence, for every read
/// extractor, every window length, and every stage in between.
pub proof fn lemma_gzip_hashes_transparent(
    gz: Seq<u8>,
    plain: Seq<u8>,
    extract: spec_fn(Seq<Seq<char>>) -> Seq<Seq<char>>,
    k: int,
)
    requires
        gunzip_of(gz) == Some(plain),
    ensures
        hashes_of_data(gz, true, extract, k) == hashes_of_data(plain, false, extract, k),
{
    lemma_gzip_text_transparent(gz, plain);
}

} // verus!
