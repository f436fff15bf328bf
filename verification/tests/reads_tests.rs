use fastxgz::FastaReadsIterator;
use fastxgz::FastqReadsIterator;
use fastxgz::LinesIterator;
use fastxgz::SimpleFastaReadsIterator;
use fastxgz::StringSource;
use fastxgz::lines_from_data;

fn lines_of_text(text: &str) -> LinesIterator {
    lines_from_data(text.as_bytes().to_vec(), false).unwrap()
}

fn pull_all(mut src: impl StringSource) -> Vec<String> {
    let mut out = Vec::new();
    while let Some(item) = src.next() {
        out.push(item);
    }
    out
}

#[test]
fn wrapped_fasta_read_is_merged() {
    let reads = FastaReadsIterator::from(lines_of_text(">r1\nACG\nTAC\n"));
    assert_eq!(pull_all(reads), vec!["ACGTAC"]);
}

#[test]
fn fasta_splits_records_at_markers() {
    let reads = FastaReadsIterator::from(lines_of_text(">r1\nACGTAC\n>r2\nACG\n"));
    assert_eq!(pull_all(reads), vec!["ACGTAC", "ACG"]);
}

#[test]
fn fasta_merges_many_wrapped_lines() {
    let reads = FastaReadsIterator::from(lines_of_text(">a\nAA\nCC\nGG\n>b\nTT\n"));
    assert_eq!(pull_all(reads), vec!["AACCGG", "TT"]);
}

#[test]
fn fasta_header_alone_yields_nothing() {
    let reads = FastaReadsIterator::from(lines_of_text(">r1\n"));
    assert_eq!(pull_all(reads), Vec::<String>::new());
}

#[test]
fn simple_fasta_takes_every_second_line() {
    let reads = SimpleFastaReadsIterator::from(lines_of_text(">a\nAAA\n>b\nCCC\n"));
    assert_eq!(pull_all(reads), vec!["AAA", "CCC"]);
}

#[test]
fn simple_fasta_drops_trailing_lone_line() {
    let reads = SimpleFastaReadsIterator::from(lines_of_text(">a\nAAA\n>b\n"));
    assert_eq!(pull_all(reads), vec!["AAA"]);
}

#[test]
fn simple_and_multi_line_agree_on_unwrapped_input() {
    let text = ">a\nAAAC\n>b\nCCCT\n>c\nGG\n";
    let simple = pull_all(SimpleFastaReadsIterator::from(lines_of_text(text)));
    let multi = pull_all(FastaReadsIterator::from(lines_of_text(text)));
    assert_eq!(simple, multi);
    assert_eq!(simple, vec!["AAAC", "CCCT", "GG"]);
}

#[test]
fn fastq_two_records_take_lines_two_and_six() {
    let text = "@r1\nACGT\n+\nIIII\n@r2\nGGGA\n+\nJJJJ\n";
    let reads = FastqReadsIterator::from(lines_of_text(text));
    assert_eq!(pull_all(reads), vec!["ACGT", "GGGA"]);
}

#[test]
fn fastq_partial_record_yields_nothing_more() {
    let text = "@r1\nACGT\n+\nIIII\n@r2\nGGGA\n";
    let reads = FastqReadsIterator::from(lines_of_text(text));
    assert_eq!(pull_all(reads), vec!["ACGT"]);
}

#[test]
fn empty_input_yields_no_reads() {
    assert_eq!(pull_all(FastaReadsIterator::from(lines_of_text(""))), Vec::<String>::new());
    assert_eq!(pull_all(SimpleFastaReadsIterator::from(lines_of_text(""))), Vec::<String>::new());
    assert_eq!(pull_all(FastqReadsIterator::from(lines_of_text(""))), Vec::<String>::new());
}
