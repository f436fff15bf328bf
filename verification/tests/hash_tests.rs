use fastxgz::FastaReadsIterator;
use fastxgz::FastqReadsIterator;
use fastxgz::HashIterator;
use fastxgz::KmerIterator;
use fastxgz::SimpleFastaReadsIterator;
use fastxgz::lines_from_data;
use std::io::Write;

fn gzip(data: &[u8]) -> Vec<u8> {
    let mut enc = flate2::write::GzEncoder::new(Vec::new(), flate2::Compression::default());
    enc.write_all(data).unwrap();
    enc.finish().unwrap()
}

fn fasta_hashes(data: Vec<u8>, gzipped: bool, k: usize) -> Vec<u64> {
    let lines = lines_from_data(data, gzipped).unwrap();
    let mut hashes = HashIterator::from(KmerIterator::from(FastaReadsIterator::from(lines), k));
    let mut out = Vec::new();
    while let Some(h) = hashes.next() {
        out.push(h);
    }
    out
}

fn simple_fasta_hashes(data: Vec<u8>, gzipped: bool, k: usize) -> Vec<u64> {
    let lines = lines_from_data(data, gzipped).unwrap();
    let reads = SimpleFastaReadsIterator::from(lines);
    let mut hashes = HashIterator::from(KmerIterator::from(reads, k));
    let mut out = Vec::new();
    while let Some(h) = hashes.next() {
        out.push(h);
    }
    out
}

fn fastq_hashes(data: Vec<u8>, gzipped: bool, k: usize) -> Vec<u64> {
    let lines = lines_from_data(data, gzipped).unwrap();
    let mut hashes = HashIterator::from(KmerIterator::from(FastqReadsIterator::from(lines), k));
    let mut out = Vec::new();
    while let Some(h) = hashes.next() {
        out.push(h);
    }
    out
}

const FASTA: &str = ">r1\nACGTACGTTGCA\n>r2\nTTGCAACGT\n";
const FASTA_WRAPPED: &str = ">r1\nACGTAC\nGTTGCA\n>r2\nTTGCAACGT\n";
const FASTQ: &str = "@r1\nACGTACGTTGCA\n+\nIIIIIIIIIIII\n@r2\nTTGCAACGT\n+\nJJJJJJJJJ\n";

#[test]
fn fasta_hashes_survive_gzip() {
    let plain = fasta_hashes(FASTA.as_bytes().to_vec(), false, 4);
    let unzipped = fasta_hashes(gzip(FASTA.as_bytes()), true, 4);
    assert!(!plain.is_empty());
    assert_eq!(plain, unzipped);
}

#[test]
fn wrapped_fasta_hashes_survive_gzip() {
    let plain = fasta_hashes(FASTA_WRAPPED.as_bytes().to_vec(), false, 5);
    let unzipped = fasta_hashes(gzip(FASTA_WRAPPED.as_bytes()), true, 5);
    assert!(!plain.is_empty());
    assert_eq!(plain, unzipped);
}

#[test]
fn simple_fasta_hashes_survive_gzip() {
    let plain = simple_fasta_hashes(FASTA.as_bytes().to_vec(), false, 4);
    let unzipped = simple_fasta_hashes(gzip(FASTA.as_bytes()), true, 4);
    assert!(!plain.is_empty());
    assert_eq!(plain, unzipped);
}

#[test]
fn fastq_hashes_survive_gzip() {
    let plain = fastq_hashes(FASTQ.as_bytes().to_vec(), false, 4);
    let unzipped = fastq_hashes(gzip(FASTQ.as_bytes()), true, 4);
    assert!(!plain.is_empty());
    assert_eq!(plain, unzipped);
}

#[test]
fn simple_and_multi_line_fasta_hashes_agree() {
    let simple = simple_fasta_hashes(FASTA.as_bytes().to_vec(), false, 4);
    let multi = fasta_hashes(FASTA.as_bytes().to_vec(), false, 4);
    assert!(!simple.is_empty());
    assert_eq!(simple, multi);
}

#[test]
fn wrapped_fasta_hashes_match_unwrapped_form() {
    let wrapped = fasta_hashes(FASTA_WRAPPED.as_bytes().to_vec(), false, 4);
    let unwrapped = fasta_hashes(FASTA.as_bytes().to_vec(), false, 4);
    assert_eq!(wrapped, unwrapped);
}

#[test]
fn fasta_and_fastq_hashes_agree_on_equal_reads() {
    let from_fasta = fasta_hashes(FASTA.as_bytes().to_vec(), false, 4);
    let from_fastq = fastq_hashes(FASTQ.as_bytes().to_vec(), false, 4);
    assert!(!from_fasta.is_empty());
    assert_eq!(from_fasta, from_fastq);
}

#[test]
fn hashing_twice_gives_the_same_values() {
    let first = fasta_hashes(FASTA.as_bytes().to_vec(), false, 6);
    let second = fasta_hashes(FASTA.as_bytes().to_vec(), false, 6);
    assert_eq!(first, second);
}

#[test]
fn hashes_match_the_direct_digest_of_each_window() {
    // ">r\nACGTA\n" with k = 3 yields windows "ACG" and "CGT"
    let hashes = fasta_hashes(b">r\nACGTA\n".to_vec(), false, 3);
    let expected = vec![
        xxhash_rust::xxh3::xxh3_64(b"ACG"),
        xxhash_rust::xxh3::xxh3_64(b"CGT"),
    ];
    assert_eq!(hashes, expected);
}
