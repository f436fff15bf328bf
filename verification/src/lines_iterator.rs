//! The line layer of the pipeline: turning the text of a (possibly
//! gzip-compressed) file into a stream of lines, each stripped of its
//! trailing newline.

use crate::StringSource;
use vstd::prelude::*;
use vstd::string::StrSliceExecFns;
use vstd::utf8::decode_utf8;
use vstd::utf8::valid_utf8;

verus! {

/// The lines of `text` when a partial line `cur` has already been
/// accumulated: each `'\n'` ends the line accumulated so far, and a final
/// fragment without a terminator is still a line, while nothing follows a
/// trailing terminator.
pub open spec fn lines_from(cur: Seq<char>, text: Seq<char>) -> Seq<Seq<char>>
    decreases text.len(),
{
    if text.len() == 0 {
        if cur.len() == 0 {
            Seq::empty()
        } else {
            seq![cur]
        }
    } else if text[0] == '\n' {
        seq![cur] + lines_from(Seq::empty(), text.drop_first())
    } else {
        lines_from(cur.push(text[0]), text.drop_first())
    }
}

/// The lines of `text`: split at each `'\n'`, with exactly one trailing
/// terminator removed per line and no other normalization.  Empty text has
/// no lines; a final fragment without a terminator is still a line.
pub open spec fn lines_of(text: Seq<char>) -> Seq<Seq<char>> {
    lines_from(Seq::empty(), text)
}

/// Splits `text` into its lines, dropping one `'\n'` terminator per line.
/// Carriage returns receive no special treatment and pass through verbatim.
pub fn split_lines(text: &str) -> (lines: Vec<String>)
    ensures
        lines.deep_view() == lines_of(text@),
{
    let n = text.unicode_len();
    let mut lines: Vec<String> = Vec::new();
    let mut start: usize = 0;
    let mut i: usize = 0;
    proof {
        assert(lines.deep_view() =~= Seq::<Seq<char>>::empty());
        assert(text@.subrange(0, 0) =~= Seq::<char>::empty());
        assert(text@.skip(0) =~= text@);
    }
    while i < n
        invariant
            n == text@.len(),
            start <= i <= n,
            lines_of(text@) == lines.deep_view() + lines_from(
                text@.subrange(start as int, i as int),
                text@.skip(i as int),
            ),
        decreases n - i,
    {
        let ghost cur = text@.subrange(start as int, i as int);
        proof {
            assert(text@.skip(i as int)[0] == text@[i as int]);
            assert(text@.skip(i as int).drop_first() =~= text@.skip(i as int + 1));
        }
        let c = text.get_char(i);
        if c == '\n' {
            let ghost old_views = lines.deep_view();
            let line = text.substring_char(start, i).to_owned();
            lines.push(line);
            proof {
                assert(lines.deep_view() =~= old_views + seq![cur]);
                assert(lines_from(cur, text@.skip(i as int)) == seq![cur] + lines_from(
                    Seq::empty(),
                    text@.skip(i as int + 1),
                ));
                assert(text@.subrange(i as int + 1, i as int + 1) =~= Seq::<char>::empty());
                assert((old_views + seq![cur]) + lines_from(Seq::empty(), text@.skip(i as int + 1))
                    =~= old_views + (seq![cur] + lines_from(Seq::empty(), text@.skip(i as int + 1))));
            }
            start = i + 1;
        } else {
            proof {
                assert(cur.push(text@[i as int]) =~= text@.subrange(start as int, i as int + 1));
            }
        }
        i = i + 1;
    }
    proof {
        assert(text@.skip(n as int) =~= Seq::<char>::empty());
    }
    if start < n {
        let ghost cur = text@.subrange(start as int, n as int);
        let ghost old_views = lines.deep_view();
        let line = text.substring_char(start, n).to_owned();
        lines.push(line);
        proof {
            assert(lines.deep_view() =~= old_views + seq![cur]);
            assert(lines_from(cur, Seq::<char>::empty()) == seq![cur]);
            assert(old_views + seq![cur] =~= lines.deep_view());
        }
    } else {
        proof {
            assert(text@.subrange(start as int, n as int) =~= Seq::<char>::empty());
            assert(lines.deep_view() + lines_from(Seq::empty(), Seq::<char>::empty())
                =~= lines.deep_view());
        }
    }
    lines
}

/// A pull-based stream over the lines of one file, in order.
pub struct LinesIterator {
    lines: Vec<String>,
    pos: usize,
}

impl View for LinesIterator {
    type V = Seq<Seq<char>>;

    /// The lines still to be yielded.
    closed spec fn view(&self) -> Seq<Seq<char>> {
        if self.pos <= self.lines.len() {
            self.lines.deep_view().skip(self.pos as int)
        } else {
            Seq::empty()
        }
    }
}

impl LinesIterator {
    /// Wraps an already-split sequence of lines as a stream.
    pub fn from(lines: Vec<String>) -> (r: Self)
        ensures
            r@ == lines.deep_view(),
    {
        let r = LinesIterator { lines, pos: 0 };
        proof {
            assert(r@ =~= r.lines.deep_view());
        }
        r
    }

    /// Splits `text` into lines and wraps them as a stream.
    pub fn from_text(text: &str) -> (r: Self)
        ensures
            r@ == lines_of(text@),
    {
        LinesIterator::from(split_lines(text))
    }
}

impl StringSource for LinesIterator {
    open spec fn items(&self) -> Seq<Seq<char>> {
        self@
    }

    fn next(&mut self) -> (r: Option<String>) {
        if self.pos < self.lines.len() {
            let line = self.lines[self.pos].clone();
            let ghost p = self.pos as int;
            self.pos = self.pos + 1;
            proof {
                assert(old(self)@[0] == self.lines.deep_view()[p]);
                assert(line@ == self.lines.deep_view()[p]);
                assert(self@ =~= old(self)@.drop_first());
            }
            Some(line)
        } else {
            None
        }
    }
}

/// What a gzip stream decompresses to, or nothing when the bytes are not a
/// well-formed gzip stream.  Decompression is a function of the bytes alone.
pub uninterp spec fn gunzip_of(data: Seq<u8>) -> Option<Seq<u8>>;

/// Relies on flate2::read::GzDecoder (driven by std::io::Read::read_to_end):
/// it inflates one gzip member, a computation determined by the input bytes
/// alone, and reports malformed input as an error.
#[verifier::external_body]
fn gunzip(data: &Vec<u8>) -> (r: Option<Vec<u8>>)
    ensures
        match r {
            Some(v) => gunzip_of(data@) == Some(v@),
            None => gunzip_of(data@) is None,
        },
{
    let mut decoder = flate2::read::GzDecoder::new(data.as_slice());
    let mut out: Vec<u8> = Vec::new();
    match std::io::Read::read_to_end(&mut decoder, &mut out) {
        Ok(_) => Some(out),
        Err(_) => None,
    }
}

/// Relies on String::from_utf8: it succeeds exactly on valid UTF-8 and
/// returns its decoding, per its documentation.
#[verifier::external_body]
fn string_from_bytes(data: Vec<u8>) -> (r: Option<String>)
    ensures
        match r {
            Some(s) => valid_utf8(data@) && s@ == decode_utf8(data@),
            None => !valid_utf8(data@),
        },
{
    match String::from_utf8(data) {
        Ok(s) => Some(s),
        Err(_) => None,
    }
}

/// Why a file's bytes could not be turned into a line stream.  Failures to
/// open the file itself are the caller's to report; these cover the decoding
/// done here.
#[derive(Clone, Copy, Debug, PartialEq, Eq, Structural)]
pub enum DecodeError {
    /// The bytes did not decompress as a gzip stream.
    InvalidGzip,
    /// The decompressed bytes were not valid UTF-8 text.
    InvalidText,
}

/// The text content of a file's bytes: decompressed first when the file is
/// gzip-compressed, then decoded as UTF-8; nothing when either step fails.
pub open spec fn text_of_data(data: Seq<u8>, gzipped: bool) -> Option<Seq<char>> {
    let plain = if gzipped {
        gunzip_of(data)
    } else {
        Some(data)
    };
    match plain {
        None => None,
        Some(bytes) => if valid_utf8(bytes) {
            Some(decode_utf8(bytes))
        } else {
            None
        },
    }
}

/// Decodes a file's bytes — inflating them first when `gzipped` — and
/// returns the stream of their lines, or says which decoding step failed.
pub fn lines_from_data(data: Vec<u8>, gzipped: bool) -> (r: Result<LinesIterator, DecodeError>)
    ensures
        match r {
            Ok(li) => text_of_data(data@, gzipped) matches Some(t) && li@ == lines_of(t),
            Err(e) => text_of_data(data@, gzipped) is None && (e == DecodeError::InvalidGzip
                <==> gzipped && gunzip_of(data@) is None),
        },
{
    let plain: Vec<u8> = if gzipped {
        match gunzip(&data) {
            Some(v) => v,
            None => {
                return Err(DecodeError::InvalidGzip);
            },
        }
    } else {
        data
    };
    match string_from_bytes(plain) {
        Some(text) => Ok(LinesIterator::from_text(text.as_str())),
        None => Err(DecodeError::InvalidText),
    }
}

/// Compression is transparent: a gzip stream and the plain bytes it
/// decompresses to carry the same text, so every stage downstream of the
/// line layer — reads, windows, hashes — is identical for the two forms.
pub proof fn lemma_gzip_text_transparent(gz: Seq<u8>, plain: Seq<u8>)
    requires
        gunzip_of(gz) == Some(plain),
    ensures
        text_of_data(gz, true) == text_of_data(plain, false),
{
}

} // verus!
