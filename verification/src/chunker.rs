//! Text chunking: splitting the assembled content blob into segments
//! that fit the model's input budget.
//!
//! The splitting itself is done by the `text-splitter` crate with its
//! character sizer, so here a "token" is one character. Splitting is a
//! pure function of the text and the budget; each segment stays within
//! the budget, prefers natural text boundaries, and is trimmed of
//! surrounding whitespace. A blob that yields no segment at all (empty
//! or all whitespace) is represented by one single-space chunk, so that
//! a run never continues with nothing to embed.

use vstd::prelude::*;
use vstd::string::StringExecFns;

verus! {

/// The segments that the text splitter produces for `s` under the
/// character budget `max`.
pub uninterp spec fn chunks_of(s: Seq<char>, max: int) -> Seq<Seq<char>>;

/// Relies on text_splitter's TextSplitter::chunks with the default
/// character sizer: the segments are a function of the text and the
/// budget alone, and each segment is at most `max_chars` characters.
#[verifier::external_body]
fn split_text(content: &str, max_chars: usize) -> (r: Vec<String>)
    requires
        max_chars >= 1,
    ensures
        r.deep_view() == chunks_of(content@, max_chars as int),
        forall|i: int| 0 <= i < r@.len() ==> (#[trigger] r@[i])@.len() <= max_chars,
{
    text_splitter::TextSplitter::new(max_chars).chunks(content).map(|c| c.to_string()).collect()
}

/// One segment of the content blob, together with its position in the
/// blob, which fixes where its vector belongs in the result buffer.
#[derive(Clone, Debug)]
pub struct Chunk {
    pub text: String,
    pub index: usize,
}

/// The chunk texts for a blob: the splitter's segments, or one single
/// space when the splitter yields none.
pub open spec fn chunk_texts(blob: Seq<char>, max: int) -> Seq<Seq<char>> {
    if chunks_of(blob, max).len() > 0 {
        chunks_of(blob, max)
    } else {
        seq![seq![' ']]
    }
}

/// Splits the content blob into chunks of at most `max_tokens` tokens,
/// in blob order: the chunk at position `i` carries index `i`.
pub fn chunk(blob: &str, max_tokens: usize) -> (r: Vec<Chunk>)
    requires
        max_tokens >= 1,
    ensures
        r@.len() == chunk_texts(blob@, max_tokens as int).len(),
        r@.len() >= 1,
        forall|i: int|
            0 <= i < r@.len() ==> (#[trigger] r@[i]).text@ == chunk_texts(
                blob@,
                max_tokens as int,
            )[i] && r@[i].index == i,
        forall|i: int| 0 <= i < r@.len() ==> (#[trigger] r@[i]).text@.len() <= max_tokens,
{
    let pieces = split_text(blob, max_tokens);
    let mut r: Vec<Chunk> = Vec::new();
    if pieces.len() == 0 {
        proof {
            reveal_strlit(" ");
        }
        let text = String::from_str(" ");
        proof {
            assert(text@ =~= seq![' ']);
        }
        r.push(Chunk { text, index: 0 });
        return r;
    }
    let n = pieces.len();
    let mut i: usize = 0;
    while i < n
        invariant
            0 <= i <= n,
            n == pieces@.len(),
            n == chunk_texts(blob@, max_tokens as int).len(),
            pieces.deep_view() == chunk_texts(blob@, max_tokens as int),
            forall|k: int| 0 <= k < pieces@.len() ==> (#[trigger] pieces@[k])@.len() <= max_tokens,
            r@.len() == i,
            forall|k: int|
                0 <= k < i ==> (#[trigger] r@[k]).text@ == chunk_texts(blob@, max_tokens as int)[k]
                    && r@[k].index == k,
        decreases n - i,
    {
        let text = pieces[i].clone();
        proof {
            assert(pieces.deep_view()[i as int] == pieces@[i as int]@);
        }
        r.push(Chunk { text, index: i });
        i = i + 1;
    }
    r
}

/// A degenerate chunking budget: not even one token fits in a chunk.
#[derive(Clone, Debug)]
pub struct ChunkingError {
    pub max_tokens: usize,
}

/// Splits the content blob under a caller-supplied budget, rejecting the
/// one degenerate budget. Fails exactly when `max_tokens` is zero; any
/// other budget chunks as [`chunk`] does.
pub fn try_chunk(blob: &str, max_tokens: usize) -> (r: Result<Vec<Chunk>, ChunkingError>)
    ensures
        r is Ok <==> max_tokens >= 1,
        r matches Err(e) ==> e.max_tokens == max_tokens,
        r matches Ok(cs) ==> {
            &&& cs@.len() == chunk_texts(blob@, max_tokens as int).len()
            &&& cs@.len() >= 1
            &&& forall|i: int|
                0 <= i < cs@.len() ==> (#[trigger] cs@[i]).text@ == chunk_texts(
                    blob@,
                    max_tokens as int,
                )[i] && cs@[i].index == i
            &&& forall|i: int| 0 <= i < cs@.len() ==> (#[trigger] cs@[i]).text@.len() <= max_tokens
        },
{
    if max_tokens == 0 {
        Err(ChunkingError { max_tokens })
    } else {
        Ok(chunk(blob, max_tokens))
    }
}

/// The texts of a chunk list, in order, as one batch for the encoder.
pub fn chunk_texts_vec(chunks: &Vec<Chunk>) -> (r: Vec<String>)
    ensures
        r@.len() == chunks@.len(),
        forall|i: int| 0 <= i < r@.len() ==> (#[trigger] r@[i])@ == chunks@[i].text@,
{
    let mut r: Vec<String> = Vec::new();
    let n = chunks.len();
    let mut i: usize = 0;
    while i < n
        invariant
            0 <= i <= n,
            n == chunks@.len(),
            r@.len() == i,
            forall|k: int| 0 <= k < i ==> (#[trigger] r@[k])@ == chunks@[k].text@,
        decreases n - i,
    {
        r.push(chunks[i].text.clone());
        i = i + 1;
    }
    r
}

} // verus!
