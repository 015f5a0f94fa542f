//! Packing source segments into retrieval-sized chunks.

use vstd::prelude::*;

use crate::chunking::{segment_texts, ChunkingOptions, Segment};
use crate::text::{
    all_white_space, char_boundaries, char_count, char_slice, char_vec, is_white_space, is_whitespace,
    lemma_trim_chars, trim, trim_chars,
};

verus! {

/// Retrieval chunk text.
#[derive(Clone, Debug, PartialEq, Eq)]
pub struct Chunk {
    /// The chunk's text.
    pub text: String,
}

/// The texts of a run of chunks.
pub open spec fn chunk_texts(chunks: Seq<Chunk>) -> Seq<Seq<char>> {
    chunks.map_values(|chunk: Chunk| chunk.text@)
}

/// A character that ends a sentence.
pub open spec fn is_sentence_terminal(c: char) -> bool {
    c == '.' || c == '!' || c == '?'
}

/// Whether a piece may end just after a sentence terminal at `end - 1`: the
/// terminal ends the text or is followed by whitespace.
pub open spec fn is_sentence_end(chars: Seq<char>, end: int) -> bool {
    &&& 1 <= end <= chars.len()
    &&& is_sentence_terminal(chars[end - 1])
    &&& end == chars.len() || is_white_space(chars[end])
}

/// The largest sentence end in `(lo, hi]`.
pub open spec fn last_sentence_end(chars: Seq<char>, lo: int, hi: int) -> Option<int>
    decreases hi - lo,
{
    if hi <= lo {
        None
    } else if is_sentence_end(chars, hi) {
        Some(hi)
    } else {
        last_sentence_end(chars, lo, hi - 1)
    }
}

/// The largest index in `(lo, hi]` that holds whitespace.
pub open spec fn last_white_space(chars: Seq<char>, lo: int, hi: int) -> Option<int>
    decreases hi - lo,
{
    if hi <= lo {
        None
    } else if 0 <= hi < chars.len() && is_white_space(chars[hi]) {
        Some(hi)
    } else {
        last_white_space(chars, lo, hi - 1)
    }
}

/// The larger of two integers.
pub open spec fn max_int(a: int, b: int) -> int {
    if a < b {
        b
    } else {
        a
    }
}

/// Where a piece starting at `start` ends when the window stops at `limit`
/// before the text does: after the last sentence, else at the last
/// whitespace, else at the window's end. Every candidate leaves more than
/// `overlap` characters in the piece.
pub open spec fn split_end(chars: Seq<char>, start: int, limit: int, overlap: int) -> int {
    let min_end = start + overlap + 1;
    match last_sentence_end(chars, max_int(start, min_end - 1), limit) {
        Some(end) => end,
        None => match last_white_space(chars, max_int(start, min_end - 1), limit - 1) {
            Some(end) => end,
            None => limit,
        },
    }
}

/// The pieces of an oversized text from character `start` on: windows of at
/// most `max` characters, cut by [`split_end`], trimmed, empty ones
/// dropped, each next window starting `overlap` characters before the
/// previous one ended.
pub open spec fn split_pieces(chars: Seq<char>, start: int, max: int, overlap: int) -> Seq<Seq<char>>
    decreases chars.len() - start,
{
    if start < 0 || start >= chars.len() || max <= 0 || overlap < 0 || overlap >= max {
        Seq::empty()
    } else {
        let limit = if start + max < chars.len() {
            start + max
        } else {
            chars.len() as int
        };
        let end = if limit == chars.len() {
            chars.len() as int
        } else {
            split_end(chars, start, limit, overlap)
        };
        let piece = trim_chars(chars.subrange(start, end));
        let head = if piece.len() == 0 {
            Seq::<Seq<char>>::empty()
        } else {
            seq![piece]
        };
        if end >= chars.len() {
            head
        } else {
            proof {
                lemma_split_end_bounds(chars, start, limit, overlap);
            }
            head + split_pieces(chars, end - overlap, max, overlap)
        }
    }
}

proof fn lemma_last_sentence_end_bounds(chars: Seq<char>, lo: int, hi: int)
    ensures
        last_sentence_end(chars, lo, hi) matches Some(e) ==> lo < e <= hi && is_sentence_end(chars, e),
    decreases hi - lo,
{
    if hi > lo && !is_sentence_end(chars, hi) {
        lemma_last_sentence_end_bounds(chars, lo, hi - 1);
    }
}

proof fn lemma_last_white_space_bounds(chars: Seq<char>, lo: int, hi: int)
    ensures
        last_white_space(chars, lo, hi) matches Some(e) ==> lo < e <= hi && 0 <= e < chars.len()
            && is_white_space(chars[e]),
    decreases hi - lo,
{
    if hi > lo && !(0 <= hi < chars.len() && is_white_space(chars[hi])) {
        lemma_last_white_space_bounds(chars, lo, hi - 1);
    }
}

/// A split end leaves more than `overlap` characters and stays inside the
/// window.
pub proof fn lemma_split_end_bounds(chars: Seq<char>, start: int, limit: int, overlap: int)
    requires
        0 <= start,
        0 <= overlap,
        start + overlap < limit <= chars.len(),
    ensures
        start + overlap < split_end(chars, start, limit, overlap) <= limit,
{
    let lo = max_int(start, start + overlap);
    lemma_last_sentence_end_bounds(chars, lo, limit);
    lemma_last_white_space_bounds(chars, lo, limit - 1);
}

/// Every split piece is non-empty, trimmed of whitespace, and no longer
/// than `max` characters.
pub proof fn lemma_split_pieces_fit(chars: Seq<char>, start: int, max: int, overlap: int)
    ensures
        forall|k: int|
            0 <= k < split_pieces(chars, start, max, overlap).len() ==> {
                let piece = #[trigger] split_pieces(chars, start, max, overlap)[k];
                &&& 0 < piece.len() <= max
                &&& !is_white_space(piece[0])
                &&& !is_white_space(piece.last())
            },
    decreases chars.len() - start,
{
    let result = split_pieces(chars, start, max, overlap);
    if start < 0 || start >= chars.len() || max <= 0 || overlap < 0 || overlap >= max {
    } else {
        let limit = if start + max < chars.len() {
            start + max
        } else {
            chars.len() as int
        };
        let end = if limit == chars.len() {
            chars.len() as int
        } else {
            split_end(chars, start, limit, overlap)
        };
        if limit < chars.len() {
            lemma_split_end_bounds(chars, start, limit, overlap);
        }
        let window = chars.subrange(start, end);
        let piece = trim_chars(window);
        lemma_trim_chars(window);
        let head = if piece.len() == 0 {
            Seq::<Seq<char>>::empty()
        } else {
            seq![piece]
        };
        if end < chars.len() {
            lemma_split_pieces_fit(chars, end - overlap, max, overlap);
            let rest = split_pieces(chars, end - overlap, max, overlap);
            assert(result == head + rest);
            assert forall|k: int| 0 <= k < result.len() implies {
                let p = #[trigger] result[k];
                &&& 0 < p.len() <= max
                &&& !is_white_space(p[0])
                &&& !is_white_space(p.last())
            } by {
                if k < head.len() {
                    assert(result[k] == piece);
                } else {
                    assert(result[k] == rest[k - head.len()]);
                }
            }
        } else {
            assert(result == head);
        }
    }
}

/// Chunks so far, and the chunk still being filled.
pub open spec fn flush(chunks: Seq<Seq<char>>, current: Seq<char>) -> Seq<Seq<char>> {
    if current.len() == 0 {
        chunks
    } else {
        chunks.push(current)
    }
}

/// The blank line between segments that share a chunk.
pub open spec fn paragraph_break() -> Seq<char> {
    seq!['\n', '\n']
}

/// One packing step: a trimmed segment joins the current chunk behind a
/// blank line while it fits `max` characters, else starts a new chunk; a
/// segment longer than `max` is split, its pieces become chunks of their
/// own and the last piece stays open.
pub open spec fn pack_step(
    state: (Seq<Seq<char>>, Seq<char>),
    segment: Seq<char>,
    max: int,
    overlap: int,
) -> (Seq<Seq<char>>, Seq<char>) {
    let chunks = state.0;
    let current = state.1;
    let text = trim_chars(segment);
    if text.len() == 0 {
        state
    } else if text.len() > max {
        let pieces = split_pieces(text, 0, max, overlap);
        let flushed = flush(chunks, current);
        if pieces.len() == 0 {
            (flushed, Seq::empty())
        } else {
            (flushed + pieces.drop_last(), pieces.last())
        }
    } else {
        let separator = if current.len() == 0 {
            0int
        } else {
            2int
        };
        if current.len() + separator + text.len() > max {
            (flush(chunks, current), text)
        } else if current.len() == 0 {
            (chunks, text)
        } else {
            (chunks, current + paragraph_break() + text)
        }
    }
}

/// The packing state after the first `n` segments.
pub open spec fn pack_prefix(segments: Seq<Seq<char>>, n: nat, max: int, overlap: int) -> (
    Seq<Seq<char>>,
    Seq<char>,
)
    decreases n,
{
    if n == 0 || n > segments.len() {
        (Seq::empty(), Seq::empty())
    } else {
        pack_step(pack_prefix(segments, (n - 1) as nat, max, overlap), segments[n - 1], max, overlap)
    }
}

/// The chunks packed from a text and its segments: with chunking disabled,
/// the whole text as one chunk unless it is blank; otherwise the greedy
/// packing of the segments.
pub open spec fn packed_chunks(text: Seq<char>, segments: Seq<Seq<char>>, options: ChunkingOptions) -> Seq<
    Seq<char>,
> {
    if !options.enabled {
        if all_white_space(text) {
            Seq::empty()
        } else {
            seq![text]
        }
    } else {
        let state = pack_prefix(segments, segments.len(), options.max_chars as int, options.overlap_chars as int);
        flush(state.0, state.1)
    }
}

/// A chunk that fits the limit and neither starts nor ends with whitespace.
pub open spec fn is_fitted_chunk(chunk: Seq<char>, max: int) -> bool {
    &&& 0 < chunk.len() <= max
    &&& !is_white_space(chunk[0])
    &&& !is_white_space(chunk.last())
}

/// A packing state whose chunks, and open chunk when there is one, are
/// fitted.
pub open spec fn is_fitted_state(state: (Seq<Seq<char>>, Seq<char>), max: int) -> bool {
    &&& forall|k: int| 0 <= k < state.0.len() ==> is_fitted_chunk(#[trigger] state.0[k], max)
    &&& state.1.len() == 0 || is_fitted_chunk(state.1, max)
}

proof fn lemma_pack_step_fitted(state: (Seq<Seq<char>>, Seq<char>), segment: Seq<char>, max: int, overlap: int)
    requires
        0 < max,
        0 <= overlap < max,
        is_fitted_state(state, max),
    ensures
        is_fitted_state(pack_step(state, segment, max, overlap), max),
{
    let chunks = state.0;
    let current = state.1;
    let text = trim_chars(segment);
    lemma_trim_chars(segment);
    let next = pack_step(state, segment, max, overlap);
    let flushed = flush(chunks, current);
    assert forall|k: int| 0 <= k < flushed.len() implies is_fitted_chunk(#[trigger] flushed[k], max) by {
        if k < chunks.len() {
            assert(flushed[k] == chunks[k]);
        }
    }
    if text.len() == 0 {
    } else if text.len() > max {
        let pieces = split_pieces(text, 0, max, overlap);
        lemma_split_pieces_fit(text, 0, max, overlap);
        if pieces.len() > 0 {
            let all = flushed + pieces.drop_last();
            assert forall|k: int| 0 <= k < all.len() implies is_fitted_chunk(#[trigger] all[k], max) by {
                if k >= flushed.len() {
                    assert(all[k] == pieces[k - flushed.len()]);
                }
            }
            assert(pieces.last() == pieces[pieces.len() - 1]);
        }
    } else {
        if current.len() > 0 && current.len() + 2 + text.len() <= max {
            let joined = current + paragraph_break() + text;
            assert(joined[0] == current[0]);
            assert(joined.last() == text.last());
        }
    }
}

proof fn lemma_pack_prefix_fitted(segments: Seq<Seq<char>>, n: nat, max: int, overlap: int)
    requires
        0 < max,
        0 <= overlap < max,
    ensures
        is_fitted_state(pack_prefix(segments, n, max, overlap), max),
    decreases n,
{
    if n == 0 || n > segments.len() {
    } else {
        lemma_pack_prefix_fitted(segments, (n - 1) as nat, max, overlap);
        lemma_pack_step_fitted(pack_prefix(segments, (n - 1) as nat, max, overlap), segments[n - 1], max, overlap);
    }
}

/// With chunking enabled and valid limits, every packed chunk holds between
/// one and `max_chars` characters and neither starts nor ends with
/// whitespace.
pub proof fn pack_chunks_fit_limit(text: Seq<char>, segments: Seq<Seq<char>>, options: ChunkingOptions)
    requires
        options.is_valid(),
        options.enabled,
    ensures
        forall|k: int|
            0 <= k < packed_chunks(text, segments, options).len() ==> is_fitted_chunk(
                #[trigger] packed_chunks(text, segments, options)[k],
                options.max_chars as int,
            ),
{
    let max = options.max_chars as int;
    let overlap = options.overlap_chars as int;
    lemma_pack_prefix_fitted(segments, segments.len(), max, overlap);
    let state = pack_prefix(segments, segments.len(), max, overlap);
    let chunks = packed_chunks(text, segments, options);
    assert forall|k: int| 0 <= k < chunks.len() implies is_fitted_chunk(#[trigger] chunks[k], max) by {
        if k < state.0.len() {
            assert(chunks[k] == state.0[k]);
        }
    }
}

/// Pack source segments into retrieval chunks.
pub fn pack(text: &str, segments: &[Segment<'_>], options: &ChunkingOptions) -> (chunks: Vec<Chunk>)
    requires
        options.is_valid(),
    ensures
        chunk_texts(chunks@) == packed_chunks(text@, segment_texts(segments@), *options),
{
    if !options.enabled {
        return whole_text_chunk(text);
    }
    let max_chars = options.max_chars;
    let overlap_chars = options.overlap_chars;
    let ghost texts = segment_texts(segments@);
    let mut chunks: Vec<Chunk> = Vec::new();
    let mut current = String::new();
    let mut i: usize = 0;
    while i < segments.len()
        invariant
            0 < max_chars,
            overlap_chars < max_chars,
            max_chars == options.max_chars,
            overlap_chars == options.overlap_chars,
            texts == segment_texts(segments@),
            i <= segments.len(),
            (chunk_texts(chunks@), current@) == pack_prefix(texts, i as nat, max_chars as int, overlap_chars as int),
            current@.len() <= max_chars,
        decreases segments.len() - i,
    {
        let segment_text = trim(segments[i].text);
        proof {
            lemma_trim_chars(texts[i as int]);
            lemma_pack_step_fits(
                pack_prefix(texts, i as nat, max_chars as int, overlap_chars as int),
                texts[i as int],
                max_chars as int,
                overlap_chars as int,
            );
        }
        if segment_text.is_empty() {
        } else if char_count(segment_text) > max_chars {
            push_current(&mut chunks, &mut current);
            let pieces = split_segment(segment_text, max_chars, overlap_chars);
            append_split_pieces(&mut chunks, &mut current, pieces);
        } else {
            push_segment(&mut chunks, &mut current, segment_text, max_chars);
        }
        i = i + 1;
    }
    push_current(&mut chunks, &mut current);
    chunks
}

/// The packing state keeps its open chunk within the limit.
proof fn lemma_pack_step_fits(state: (Seq<Seq<char>>, Seq<char>), segment: Seq<char>, max: int, overlap: int)
    requires
        0 < max,
        0 <= overlap < max,
        state.1.len() <= max,
    ensures
        pack_step(state, segment, max, overlap).1.len() <= max,
{
    let text = trim_chars(segment);
    if text.len() > max {
        lemma_split_pieces_fit(text, 0, max, overlap);
        let pieces = split_pieces(text, 0, max, overlap);
        if pieces.len() > 0 {
            assert(pieces.last() == pieces[pieces.len() - 1]);
        }
    }
}

/// Build a single disabled-mode chunk.
fn whole_text_chunk(text: &str) -> (chunks: Vec<Chunk>)
    ensures
        chunk_texts(chunks@) == (if all_white_space(text@) {
            Seq::<Seq<char>>::empty()
        } else {
            seq![text@]
        }),
{
    proof {
        lemma_trim_chars(text@);
    }
    if trim(text).is_empty() {
        let chunks: Vec<Chunk> = Vec::new();
        assert(chunk_texts(chunks@) =~= Seq::<Seq<char>>::empty());
        return chunks;
    }
    let mut chunks: Vec<Chunk> = Vec::new();
    chunks.push(Chunk { text: text.to_owned() });
    assert(chunk_texts(chunks@) =~= seq![text@]);
    chunks
}

/// Add a whole segment to the current chunk.
fn push_segment(chunks: &mut Vec<Chunk>, current: &mut String, segment_text: &str, max_chars: usize)
    requires
        0 < segment_text@.len() <= max_chars,
        old(current)@.len() <= max_chars,
    ensures
        ({
            let separator = if old(current)@.len() == 0 {
                0int
            } else {
                2int
            };
            if old(current)@.len() + separator + segment_text@.len() > max_chars {
                chunk_texts(final(chunks)@) == flush(chunk_texts(old(chunks)@), old(current)@)
                    && final(current)@ == segment_text@
            } else if old(current)@.len() == 0 {
                chunk_texts(final(chunks)@) == chunk_texts(old(chunks)@) && final(current)@ == segment_text@
            } else {
                chunk_texts(final(chunks)@) == chunk_texts(old(chunks)@) && final(current)@ == old(current)@
                    + paragraph_break() + segment_text@
            }
        }),
{
    let separator_chars: usize = if current.as_str().is_empty() {
        0
    } else {
        2
    };
    let segment_chars = char_count(segment_text);
    let current_chars = char_count(current.as_str());
    let room = max_chars - segment_chars;
    if current_chars > room || separator_chars > room - current_chars {
        push_current(chunks, current);
    }
    if !current.as_str().is_empty() {
        current.append("\n\n");
    }
    current.append(segment_text);
    proof {
        reveal_strlit("\n\n");
    }
    assert(current@ =~= old(current)@ + paragraph_break() + segment_text@ || current@ =~= segment_text@);
}

/// Add finished split pieces to chunks.
fn append_split_pieces(chunks: &mut Vec<Chunk>, current: &mut String, pieces: Vec<String>)
    requires
        old(current)@.len() == 0,
    ensures
        pieces@.len() == 0 ==> chunk_texts(final(chunks)@) == chunk_texts(old(chunks)@) && final(current)@.len() == 0,
        pieces@.len() > 0 ==> {
            let texts = pieces@.map_values(|piece: String| piece@);
            &&& chunk_texts(final(chunks)@) == chunk_texts(old(chunks)@) + texts.drop_last()
            &&& final(current)@ == texts.last()
        },
{
    let ghost texts = pieces@.map_values(|piece: String| piece@);
    let ghost start = chunk_texts(chunks@);
    let count = pieces.len();
    let mut index: usize = 0;
    assert(start + texts.take(0).take(0) =~= start);
    while index < count
        invariant
            count == pieces@.len(),
            texts == pieces@.map_values(|piece: String| piece@),
            index <= count,
            chunk_texts(chunks@) == start + texts.take(index as int).take(if index == count && count > 0 {
                count - 1
            } else {
                index as int
            }),
            index < count ==> current@.len() == 0,
            index == count && count > 0 ==> current@ == texts.last(),
            count == 0 ==> current@.len() == 0 && chunk_texts(chunks@) == start,
        decreases count - index,
    {
        let piece = pieces[index].clone();
        let ghost before = chunk_texts(chunks@);
        if index + 1 < count {
            chunks.push(Chunk { text: piece });
            assert(chunk_texts(chunks@) =~= before.push(texts[index as int]));
            assert(texts.take(index + 1) =~= texts.take(index as int).push(texts[index as int]));
            assert(texts.take(index + 1).take(index + 1) =~= texts.take(index + 1));
            assert(texts.take(index as int).take(index as int) =~= texts.take(index as int));
        } else {
            current.append(piece.as_str());
            assert(current@ =~= texts[index as int]);
            assert(texts.take(index as int).take(index as int) =~= texts.take(index + 1).take(index as int));
        }
        index = index + 1;
    }
    proof {
        if count > 0 {
            assert(texts.take(count as int).take(count - 1) =~= texts.drop_last());
        } else {
            assert(texts.take(0).take(0) =~= Seq::<Seq<char>>::empty());
            assert(start + Seq::<Seq<char>>::empty() =~= start);
        }
    }
}

/// Finish the current chunk.
fn push_current(chunks: &mut Vec<Chunk>, current: &mut String)
    ensures
        chunk_texts(final(chunks)@) == flush(chunk_texts(old(chunks)@), old(current)@),
        final(current)@.len() == 0,
{
    if current.as_str().is_empty() {
        return;
    }
    let mut text = String::new();
    std::mem::swap(&mut text, current);
    chunks.push(Chunk { text });
    assert(chunk_texts(chunks@) =~= chunk_texts(old(chunks)@).push(old(current)@));
}

/// Split one oversized segment.
fn split_segment(text: &str, max_chars: usize, overlap_chars: usize) -> (pieces: Vec<String>)
    requires
        0 < max_chars,
        overlap_chars < max_chars,
    ensures
        pieces@.map_values(|piece: String| piece@) == split_pieces(text@, 0, max_chars as int, overlap_chars as int),
{
    let chars = char_vec(text);
    let boundaries = char_boundaries(text);
    let mut pieces: Vec<String> = Vec::new();
    let mut start: usize = 0;
    let ghost whole = split_pieces(text@, 0, max_chars as int, overlap_chars as int);
    while start < chars.len()
        invariant
            chars@ == text@,
            boundaries@.len() == text@.len() + 1,
            forall|k: int| 0 <= k <= text@.len() ==> boundaries@[k] == crate::text::utf8_len(#[trigger] text@.take(k)),
            0 < max_chars,
            overlap_chars < max_chars,
            whole == split_pieces(text@, 0, max_chars as int, overlap_chars as int),
            pieces@.map_values(|piece: String| piece@) + split_pieces(
                text@,
                start as int,
                max_chars as int,
                overlap_chars as int,
            ) == whole,
        decreases chars.len() - start,
    {
        let ghost before = pieces@.map_values(|piece: String| piece@);
        let len = chars.len();
        let limit = if max_chars >= len - start {
            len
        } else {
            start + max_chars
        };
        let end = if limit == len {
            len
        } else {
            choose_end(&chars, start, limit, overlap_chars)
        };
        proof {
            if limit < len {
                lemma_split_end_bounds(text@, start as int, limit as int, overlap_chars as int);
            }
        }
        let piece = trim(char_slice(text, &boundaries, start, end));
        if !piece.is_empty() {
            pieces.push(piece.to_owned());
        }
        assert(pieces@.map_values(|piece: String| piece@) =~= before + (if piece@.len() == 0 {
            Seq::<Seq<char>>::empty()
        } else {
            seq![piece@]
        }));
        if end == len {
            assert(pieces@.map_values(|piece: String| piece@) =~= whole);
            return pieces;
        }
        start = end - overlap_chars;
    }
    assert(pieces@.map_values(|piece: String| piece@) =~= whole);
    pieces
}

/// Choose a split boundary inside the allowed window.
fn choose_end(chars: &Vec<char>, start: usize, limit: usize, overlap_chars: usize) -> (end: usize)
    requires
        start + overlap_chars < limit <= chars@.len(),
    ensures
        end == split_end(chars@, start as int, limit as int, overlap_chars as int),
{
    let min_end = start + overlap_chars + 1;
    if let Some(end) = sentence_boundary(chars, start, limit, min_end) {
        return end;
    }
    if let Some(end) = whitespace_boundary(chars, start, limit, min_end) {
        return end;
    }
    limit
}

/// Find the last sentence boundary in a window.
fn sentence_boundary(chars: &Vec<char>, start: usize, limit: usize, min_end: usize) -> (boundary: Option<usize>)
    requires
        start < min_end,
        limit <= chars@.len(),
    ensures
        match boundary {
            Some(end) => last_sentence_end(chars@, max_int(start as int, min_end - 1), limit as int)
                == Some(end as int),
            None => last_sentence_end(chars@, max_int(start as int, min_end - 1), limit as int) is None,
        },
{
    let ghost lo = max_int(start as int, min_end - 1);
    let mut boundary: Option<usize> = None;
    let mut index = start;
    while index < limit
        invariant
            start <= index,
            start < min_end,
            limit <= chars@.len(),
            lo == max_int(start as int, min_end - 1),
            index <= limit || index == start,
            match boundary {
                Some(end) => last_sentence_end(chars@, lo, index as int) == Some(end as int),
                None => last_sentence_end(chars@, lo, index as int) is None,
            },
        decreases limit - index,
    {
        let character = chars[index];
        let end = index + 1;
        if (character == '.' || character == '!' || character == '?') && end >= min_end && (end >= chars.len()
            || is_whitespace(chars[end])) {
            boundary = Some(end);
        }
        index = end;
    }
    proof {
        assert(last_sentence_end(chars@, lo, start as int) is None);
        if limit <= start {
            assert(last_sentence_end(chars@, lo, limit as int) is None);
        }
    }
    boundary
}

/// Find the last word boundary in a window.
fn whitespace_boundary(chars: &Vec<char>, start: usize, limit: usize, min_end: usize) -> (boundary: Option<
    usize,
>)
    requires
        start < min_end,
        0 < limit <= chars@.len(),
    ensures
        match boundary {
            Some(end) => last_white_space(chars@, max_int(start as int, min_end - 1), limit - 1)
                == Some(end as int),
            None => last_white_space(chars@, max_int(start as int, min_end - 1), limit - 1) is None,
        },
{
    let ghost lo = max_int(start as int, min_end - 1);
    let mut boundary: Option<usize> = None;
    let mut index = start + 1;
    while index < limit
        invariant
            start < index,
            start < min_end,
            0 < limit <= chars@.len(),
            lo == max_int(start as int, min_end - 1),
            index <= limit || index == start + 1,
            match boundary {
                Some(end) => last_white_space(chars@, lo, index - 1) == Some(end as int),
                None => last_white_space(chars@, lo, index - 1) is None,
            },
        decreases limit - index,
    {
        if index >= min_end && is_whitespace(chars[index]) {
            boundary = Some(index);
        }
        index = index + 1;
    }
    proof {
        assert(last_white_space(chars@, lo, start as int) is None);
        if limit <= start + 1 {
            assert(last_white_space(chars@, lo, limit - 1) is None);
        }
    }
    boundary
}

proof fn lemma_last_sentence_end(chars: Seq<char>, lo: int, hi: int)
    ensures
        match last_sentence_end(chars, lo, hi) {
            Some(e) => lo < e <= hi && is_sentence_end(chars, e) && forall|k: int|
                e < k <= hi ==> !is_sentence_end(chars, k),
            None => forall|k: int| lo < k <= hi ==> !is_sentence_end(chars, k),
        },
    decreases hi - lo,
{
    if hi > lo && !is_sentence_end(chars, hi) {
        lemma_last_sentence_end(chars, lo, hi - 1);
    }
}

/// An oversized piece is cut after a sentence when it can be: when the
/// window past the overlap holds a sentence end (a `.`, `!` or `?` followed
/// by whitespace or the end of the text), the piece ends at the last one.
pub proof fn split_prefers_last_sentence_end(chars: Seq<char>, start: int, limit: int, overlap: int, sentence: int)
    requires
        0 <= start,
        0 <= overlap,
        start + overlap < limit <= chars.len(),
        start + overlap < sentence <= limit,
        is_sentence_end(chars, sentence),
    ensures
        start + overlap < split_end(chars, start, limit, overlap) <= limit,
        is_sentence_end(chars, split_end(chars, start, limit, overlap)),
        forall|e: int|
            split_end(chars, start, limit, overlap) < e <= limit ==> !is_sentence_end(chars, e),
{
    lemma_last_sentence_end(chars, start + overlap, limit);
    assert(max_int(start, start + overlap + 1 - 1) == start + overlap);
}

} // verus!
