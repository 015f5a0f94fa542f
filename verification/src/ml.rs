//! Model-independent helpers shared by the model-backed capabilities.

use vstd::prelude::*;

use crate::text::{decimal, decimal_chars};

verus! {

/// The batch size a request resolves to: the requested one, else the item
/// count capped by the default.
pub open spec fn resolved_batch_size(item_count: usize, requested: Option<usize>, default_limit: usize) -> usize {
    match requested {
        Some(size) => size,
        None => if item_count < default_limit {
            item_count
        } else {
            default_limit
        },
    }
}

/// Resolves an optional batch size, applying a default and validation.
pub fn resolve_batch_size(item_count: usize, requested: Option<usize>, default_limit: usize) -> (size: Result<
    usize,
    String,
>)
    ensures
        size is Err <==> resolved_batch_size(item_count, requested, default_limit) == 0,
        size matches Ok(s) ==> s == resolved_batch_size(item_count, requested, default_limit),
        size matches Err(message) ==> message@ == "batch size must be greater than zero"@,
{
    let batch_size = match requested {
        Some(size) => size,
        None => if item_count < default_limit {
            item_count
        } else {
            default_limit
        },
    };
    if batch_size == 0 {
        return Err("batch size must be greater than zero".to_owned());
    }
    Ok(batch_size)
}

/// The message for a model that returned the wrong number of outputs.
pub open spec fn output_count_message(actor: Seq<char>, input_count: usize, output_count: usize) -> Seq<char> {
    actor + " output count mismatch: expected "@ + decimal_chars(input_count as nat) + ", got "@
        + decimal_chars(output_count as nat)
}

/// Validates that model inference returned one output per input.
pub fn validate_output_count(actor: &str, input_count: usize, output_count: usize) -> (result: Result<(), String>)
    ensures
        result is Ok <==> input_count == output_count,
        result matches Err(message) ==> message@ == output_count_message(actor@, input_count, output_count),
{
    if input_count == output_count {
        return Ok(());
    }
    let mut message = actor.to_owned();
    message.append(" output count mismatch: expected ");
    message.append(decimal(input_count).as_str());
    message.append(", got ");
    message.append(decimal(output_count).as_str());
    Err(message)
}

/// Saturating cast to the `i16` range.
pub fn sat16(value: i32) -> (clamped: i32)
    ensures
        clamped == (if value < -32768 {
            -32768
        } else if value > 32767 {
            32767
        } else {
            value as int
        }),
{
    if value < -32768 {
        -32768
    } else if value > 32767 {
        32767
    } else {
        value
    }
}

/// The `index`-th batch of `item_count` items taken `batch_size` at a time
/// (`<[T]>::chunks`): its first item and the item after its last.
pub open spec fn batch_range(item_count: int, batch_size: int, index: int) -> (int, int) {
    let start = index * batch_size;
    (start, if start + batch_size <= item_count { start + batch_size } else { item_count })
}

/// The item ranges of the batches inference runs over: `batch_size` items
/// at a time, in order, the last batch holding what is left.
pub fn batch_ranges(item_count: usize, batch_size: usize) -> (ranges: Vec<(usize, usize)>)
    requires
        batch_size > 0,
    ensures
        ranges@.len() == (item_count + batch_size - 1) / (batch_size as int),
        forall|i: int|
            0 <= i < ranges@.len() ==> (#[trigger] ranges@[i]).0 == batch_range(
                item_count as int,
                batch_size as int,
                i,
            ).0 && ranges@[i].1 == batch_range(item_count as int, batch_size as int, i).1,
{
    let mut ranges: Vec<(usize, usize)> = Vec::new();
    let mut start: usize = 0;
    assert(ranges@.len() == 0);
    assert(0 * batch_size == 0) by (nonlinear_arith);
    while start < item_count
        invariant
            batch_size > 0,
            start == ranges@.len() * batch_size,
            ranges@.len() > 0 ==> start - batch_size < item_count,
            start <= item_count || ranges@.len() > 0,
            forall|i: int|
                0 <= i < ranges@.len() ==> (#[trigger] ranges@[i]).0 == batch_range(
                    item_count as int,
                    batch_size as int,
                    i,
                ).0 && ranges@[i].1 == batch_range(item_count as int, batch_size as int, i).1,
        decreases item_count - start,
    {
        let end = if item_count - start > batch_size {
            start + batch_size
        } else {
            item_count
        };
        proof {
            assert(start == ranges@.len() * batch_size);
            assert((ranges@.len() + 1) * batch_size == ranges@.len() * batch_size + batch_size) by (nonlinear_arith);
        }
        ranges.push((start, end));
        if end == item_count {
            proof {
                let count = ranges@.len() as int;
                assert((count - 1) * batch_size == count * batch_size - batch_size) by (nonlinear_arith);
                lemma_batch_count(item_count as int, batch_size as int, ranges@.len() as int);
            }
            return ranges;
        }
        start = end;
    }
    proof {
        let count = ranges@.len() as int;
        assert((count - 1) * batch_size == count * batch_size - batch_size) by (nonlinear_arith);
        lemma_batch_count(item_count as int, batch_size as int, ranges@.len() as int);
    }
    ranges
}

/// `count` batches of `size` hold `n` items exactly when the last batch
/// starts before `n` and the batches reach `n`.
proof fn lemma_batch_count(n: int, size: int, count: int)
    requires
        size > 0,
        n >= 0,
        count >= 0,
        count > 0 ==> (count - 1) * size < n,
        count * size >= n,
    ensures
        count == (n + size - 1) / size,
{
    assert(count == (n + size - 1) / size) by (nonlinear_arith)
        requires
            size > 0,
            n >= 0,
            count >= 0,
            count > 0 ==> (count - 1) * size < n,
            count * size >= n,
    ;
}

/// The batches split the items without gaps or overlap: each holds between
/// one and `batch_size` items, each starts where the one before ends, and
/// the last ends with the items.
pub proof fn batches_cover_items(item_count: int, batch_size: int)
    requires
        item_count >= 0,
        batch_size > 0,
    ensures
        forall|i: int|
            0 <= i < (item_count + batch_size - 1) / batch_size ==> {
                let range = #[trigger] batch_range(item_count, batch_size, i);
                0 < range.1 - range.0 <= batch_size
            },
        forall|i: int|
            0 <= i < (item_count + batch_size - 1) / batch_size - 1 ==> #[trigger] batch_range(
                item_count,
                batch_size,
                i,
            ).1 == batch_range(item_count, batch_size, i + 1).0,
        item_count > 0 ==> batch_range(item_count, batch_size, (item_count + batch_size - 1) / batch_size - 1).1
            == item_count,
        batch_range(item_count, batch_size, 0).0 == 0,
{
    let count = (item_count + batch_size - 1) / batch_size;
    assert(item_count > 0 ==> (count - 1) * batch_size < item_count <= count * batch_size) by (nonlinear_arith)
        requires
            count == (item_count + batch_size - 1) / batch_size,
            batch_size > 0,
            item_count >= 0,
    ;
    assert(item_count == 0 ==> count == 0) by (nonlinear_arith)
        requires
            count == (item_count + batch_size - 1) / batch_size,
            batch_size > 0,
    ;
    assert forall|i: int| 0 <= i < count implies {
        let range = #[trigger] batch_range(item_count, batch_size, i);
        0 < range.1 - range.0 <= batch_size
    } by {
        assert(i * batch_size < item_count) by (nonlinear_arith)
            requires
                0 <= i < count,
                (count - 1) * batch_size < item_count,
                batch_size > 0,
        ;
    }
    assert forall|i: int| 0 <= i < count - 1 implies #[trigger] batch_range(item_count, batch_size, i).1
        == batch_range(item_count, batch_size, i + 1).0 by {
        assert((i + 1) * batch_size == i * batch_size + batch_size) by (nonlinear_arith);
        assert((i + 1) * batch_size < item_count) by (nonlinear_arith)
            requires
                0 <= i < count - 1,
                (count - 1) * batch_size < item_count,
                batch_size > 0,
        ;
    }
    assert(0 * batch_size == 0) by (nonlinear_arith);
    if item_count > 0 {
        assert((count - 1) * batch_size + batch_size == count * batch_size) by (nonlinear_arith);
    }
}

/// The rules that rename BERT checkpoint weights to the encoder's module
/// paths: a pattern over a weight name, and its replacement.
pub open spec fn encoder_remap_rules() -> Seq<(Seq<char>, Seq<char>)> {
    seq![
        ("encoder\\.layer\\.([0-9]+)"@, "encoder.layers.$1"@),
        ("attention\\.self\\.query"@, "mha.query"@),
        ("attention\\.self\\.key"@, "mha.key"@),
        ("attention\\.self\\.value"@, "mha.value"@),
        ("attention\\.output\\.dense"@, "mha.output"@),
        ("attention\\.output\\.LayerNorm"@, "norm_1"@),
        ("intermediate\\.dense"@, "pwff.linear_inner"@),
        ("(layers\\.[0-9]+)\\.output\\.dense"@, "$1.pwff.linear_outer"@),
        ("(layers\\.[0-9]+)\\.output\\.LayerNorm"@, "$1.norm_2"@)
    ]
}

/// Shared BERT encoder weight remap rules.
pub fn bert_encoder_remap() -> (rules: Vec<(&'static str, &'static str)>)
    ensures
        rules@.map_values(|rule: (&'static str, &'static str)| (rule.0@, rule.1@)) == encoder_remap_rules(),
{
    let mut rules: Vec<(&'static str, &'static str)> = Vec::new();
    rules.push(("encoder\\.layer\\.([0-9]+)", "encoder.layers.$1"));
    rules.push(("attention\\.self\\.query", "mha.query"));
    rules.push(("attention\\.self\\.key", "mha.key"));
    rules.push(("attention\\.self\\.value", "mha.value"));
    rules.push(("attention\\.output\\.dense", "mha.output"));
    rules.push(("attention\\.output\\.LayerNorm", "norm_1"));
    rules.push(("intermediate\\.dense", "pwff.linear_inner"));
    rules.push(("(layers\\.[0-9]+)\\.output\\.dense", "$1.pwff.linear_outer"));
    rules.push(("(layers\\.[0-9]+)\\.output\\.LayerNorm", "$1.norm_2"));
    assert(rules@.map_values(|rule: (&'static str, &'static str)| (rule.0@, rule.1@)) =~= encoder_remap_rules());
    rules
}

/// The number of attended (non-zero) entries of an attention mask.
pub open spec fn attended_count(mask: Seq<u32>) -> nat
    decreases mask.len(),
{
    if mask.len() == 0 {
        0
    } else {
        attended_count(mask.drop_last()) + if mask.last() != 0 {
            1nat
        } else {
            0nat
        }
    }
}

/// The offset of column `column` of row `row` in a row-major batch whose
/// rows are `row_len` long.
pub open spec fn cell_offset(row: int, row_len: int, column: int) -> int {
    row * row_len + column
}

/// The attention mask of one row of a batch.
pub open spec fn row_mask(mask: Seq<u32>, row: int, row_len: int) -> Seq<u32> {
    mask.subrange(cell_offset(row, row_len, 0), cell_offset(row, row_len, row_len))
}

/// The position id of the token at `offset` in the row that starts at
/// `start`: padding keeps the pad id, and attended tokens count up from the
/// one after it.
pub open spec fn position_id(mask: Seq<u32>, start: int, offset: int, pad_token_id: i32) -> int {
    if mask[offset] == 0 {
        pad_token_id as int
    } else {
        pad_token_id + 1 + attended_count(mask.subrange(start, offset))
    }
}

proof fn lemma_attended_count_prefix(mask: Seq<u32>, k: int)
    requires
        0 <= k <= mask.len(),
    ensures
        attended_count(mask.subrange(0, k)) <= attended_count(mask),
    decreases mask.len() - k,
{
    if k < mask.len() {
        lemma_attended_count_prefix(mask, k + 1);
        assert(mask.subrange(0, k + 1).drop_last() =~= mask.subrange(0, k));
    } else {
        assert(mask.subrange(0, k) =~= mask);
    }
}

proof fn lemma_row_bounds(row: int, rows: int, row_len: int)
    requires
        0 <= row < rows,
        0 <= row_len,
    ensures
        0 <= row * row_len,
        row * row_len + row_len <= rows * row_len,
        (row + 1) * row_len == row * row_len + row_len,
{
    assert(0 <= row * row_len) by (nonlinear_arith)
        requires
            0 <= row,
            0 <= row_len,
    ;
    assert((row + 1) * row_len == row * row_len + row_len) by (nonlinear_arith);
    assert((row + 1) * row_len <= rows * row_len) by (nonlinear_arith)
        requires
            row + 1 <= rows,
            0 <= row_len,
    ;
}

proof fn lemma_earlier_row(row: int, later: int, row_len: int, column: int)
    requires
        0 <= row < later,
        0 <= column < row_len,
    ensures
        cell_offset(row, row_len, column) < later * row_len,
{
    assert(row * row_len + row_len <= later * row_len) by (nonlinear_arith)
        requires
            row + 1 <= later,
            0 <= row_len,
    ;
}

/// Builds XLM-RoBERTa position ids from padded attention masks: in each of
/// the `batch_size` rows of `sequence_length` tokens, attended tokens are
/// numbered from the pad id plus one, in order; every other entry keeps the
/// pad id.
pub fn xlm_roberta_position_ids(
    attention_mask: &[u32],
    batch_size: usize,
    sequence_length: usize,
    pad_token_id: i32,
) -> (position_ids: Vec<i32>)
    requires
        batch_size * sequence_length <= attention_mask@.len(),
        forall|row: int|
            0 <= row < batch_size ==> pad_token_id + 1 + attended_count(
                #[trigger] row_mask(attention_mask@, row, sequence_length as int),
            ) <= i32::MAX,
    ensures
        position_ids@.len() == attention_mask@.len(),
        forall|row: int, column: int|
            0 <= row < batch_size && 0 <= column < sequence_length ==> #[trigger] position_ids@[cell_offset(
                row,
                sequence_length as int,
                column,
            )] == position_id(
                attention_mask@,
                cell_offset(row, sequence_length as int, 0),
                cell_offset(row, sequence_length as int, column),
                pad_token_id,
            ),
        forall|offset: int|
            batch_size * sequence_length <= offset < position_ids@.len() ==> #[trigger] position_ids@[offset]
                == pad_token_id,
{
    let ghost mask = attention_mask@;
    let ghost seq_len = sequence_length as int;
    let total_len = attention_mask.len();
    let mut position_ids: Vec<i32> = Vec::new();
    while position_ids.len() < attention_mask.len()
        invariant
            position_ids@.len() <= mask.len(),
            mask == attention_mask@,
            forall|o: int| 0 <= o < position_ids@.len() ==> #[trigger] position_ids@[o] == pad_token_id,
        decreases mask.len() - position_ids@.len(),
    {
        position_ids.push(pad_token_id);
    }
    let mut batch: usize = 0;
    while batch < batch_size
        invariant
            mask == attention_mask@,
            seq_len == sequence_length,
            total_len == mask.len(),
            batch <= batch_size,
            batch_size * sequence_length <= mask.len(),
            position_ids@.len() == mask.len(),
            forall|row: int|
                0 <= row < batch_size ==> pad_token_id + 1 + attended_count(
                    #[trigger] row_mask(mask, row, seq_len),
                ) <= i32::MAX,
            forall|row: int, column: int|
                0 <= row < batch && 0 <= column < sequence_length ==> #[trigger] position_ids@[cell_offset(
                    row,
                    seq_len,
                    column,
                )] == position_id(mask, cell_offset(row, seq_len, 0), cell_offset(row, seq_len, column), pad_token_id),
            forall|offset: int|
                batch * sequence_length <= offset < position_ids@.len() ==> #[trigger] position_ids@[offset]
                    == pad_token_id,
        decreases batch_size - batch,
    {
        proof {
            lemma_row_bounds(batch as int, batch_size as int, seq_len);
        }
        let start = batch * sequence_length;
        let end = start + sequence_length;
        let ghost row = row_mask(mask, batch as int, seq_len);
        assert(row =~= mask.subrange(start as int, end as int));
        assert(row.subrange(0, 0) =~= Seq::<u32>::empty());
        let mut position: i32 = pad_token_id + 1;
        let mut offset = start;
        while offset < end
            invariant
                mask == attention_mask@,
                seq_len == sequence_length,
                batch < batch_size,
                start == batch * sequence_length,
                end == start + sequence_length,
                end <= mask.len(),
                start <= offset <= end,
                row == mask.subrange(start as int, end as int),
                position == pad_token_id + 1 + attended_count(mask.subrange(start as int, offset as int)),
                pad_token_id + 1 + attended_count(row) <= i32::MAX,
                position_ids@.len() == mask.len(),
                forall|r: int, column: int|
                    0 <= r < batch && 0 <= column < sequence_length ==> #[trigger] position_ids@[cell_offset(
                        r,
                        seq_len,
                        column,
                    )] == position_id(mask, cell_offset(r, seq_len, 0), cell_offset(r, seq_len, column), pad_token_id),
                forall|o: int|
                    start <= o < offset ==> #[trigger] position_ids@[o] == position_id(
                        mask,
                        start as int,
                        o,
                        pad_token_id,
                    ),
                forall|o: int| offset <= o < position_ids@.len() ==> #[trigger] position_ids@[o] == pad_token_id,
            decreases end - offset,
        {
            let ghost before = position_ids@;
            proof {
                assert(mask.subrange(start as int, offset as int + 1).drop_last() =~= mask.subrange(
                    start as int,
                    offset as int,
                ));
                assert(row.subrange(0, offset - start + 1) =~= mask.subrange(start as int, offset as int + 1));
                lemma_attended_count_prefix(row, offset - start + 1);
                assert forall|r: int, column: int|
                    0 <= r < batch && 0 <= column < sequence_length implies cell_offset(r, seq_len, column)
                    < start by {
                    lemma_earlier_row(r, batch as int, seq_len, column);
                }
            }
            if attention_mask[offset] != 0 {
                position_ids.set(offset, position);
                position = position + 1;
            }
            offset = offset + 1;
            proof {
                assert forall|r: int, column: int|
                    0 <= r < batch && 0 <= column < sequence_length implies #[trigger] position_ids@[cell_offset(
                        r,
                        seq_len,
                        column,
                    )] == before[cell_offset(r, seq_len, column)] by {
                    lemma_earlier_row(r, batch as int, seq_len, column);
                }
            }
        }
        proof {
            assert forall|r: int, column: int|
                0 <= r < batch + 1 && 0 <= column < sequence_length implies #[trigger] position_ids@[cell_offset(
                    r,
                    seq_len,
                    column,
                )] == position_id(mask, cell_offset(r, seq_len, 0), cell_offset(r, seq_len, column), pad_token_id) by {
                if r == batch {
                    assert(cell_offset(r, seq_len, column) == start + column);
                    assert(cell_offset(r, seq_len, 0) == start);
                }
            }
        }
        batch = batch + 1;
    }
    position_ids
}

/// The length of the longest token sequence.
pub open spec fn longest_tokens(ids: Seq<Vec<u32>>) -> nat
    decreases ids.len(),
{
    if ids.len() == 0 {
        0
    } else {
        let rest = longest_tokens(ids.drop_last());
        if ids.last()@.len() > rest {
            ids.last()@.len()
        } else {
            rest
        }
    }
}

/// The row length of a padded batch: the longest token sequence (one when
/// the batch is empty), capped at `max_length`.
pub open spec fn padded_length(ids: Seq<Vec<u32>>, max_length: usize) -> nat {
    let longest = if ids.len() == 0 {
        1
    } else {
        longest_tokens(ids)
    };
    if longest <= max_length {
        longest
    } else {
        max_length as nat
    }
}

/// A tokenized batch laid out in rows of one length.
#[derive(Clone, Debug)]
pub struct PaddedBatch {
    /// Token ids, row-major.
    pub input_ids: Vec<i32>,
    /// Attention mask entries, row-major.
    pub attention_mask: Vec<u32>,
    /// Length of each row.
    pub sequence_length: usize,
}

/// Lays the token ids and attention masks of a tokenized batch out in rows
/// of the padded length: each row holds its sequence's leading tokens (as
/// `i32`) and mask entries, then the pad id with a zero mask.
pub fn pad_token_batch(ids: &Vec<Vec<u32>>, masks: &Vec<Vec<u32>>, max_length: usize, pad_token_id: i32) -> (batch:
    PaddedBatch)
    requires
        masks@.len() == ids@.len(),
        forall|row: int| 0 <= row < ids@.len() ==> #[trigger] masks@[row]@.len() >= ids@[row]@.len(),
        ids@.len() * padded_length(ids@, max_length) <= usize::MAX,
    ensures
        batch.sequence_length == padded_length(ids@, max_length),
        batch.input_ids@.len() == ids@.len() * batch.sequence_length,
        batch.attention_mask@.len() == ids@.len() * batch.sequence_length,
        forall|row: int, column: int|
            0 <= row < ids@.len() && 0 <= column < batch.sequence_length ==> {
                &&& #[trigger] batch.input_ids@[cell_offset(row, batch.sequence_length as int, column)] == if column
                    < ids@[row]@.len() {
                    ids@[row]@[column] as i32
                } else {
                    pad_token_id
                }
                &&& batch.attention_mask@[cell_offset(row, batch.sequence_length as int, column)] == if column
                    < ids@[row]@.len() {
                    masks@[row]@[column]
                } else {
                    0
                }
            },
{
    let mut longest: usize = 0;
    let mut k: usize = 0;
    while k < ids.len()
        invariant
            k <= ids@.len(),
            longest == longest_tokens(ids@.subrange(0, k as int)),
        decreases ids@.len() - k,
    {
        proof {
            assert(ids@.subrange(0, k as int + 1).drop_last() =~= ids@.subrange(0, k as int));
        }
        if ids[k].len() > longest {
            longest = ids[k].len();
        }
        k = k + 1;
    }
    proof {
        assert(ids@.subrange(0, ids@.len() as int) =~= ids@);
    }
    let mut sequence_length: usize = if ids.len() == 0 {
        1
    } else {
        longest
    };
    if sequence_length > max_length {
        sequence_length = max_length;
    }
    let ghost seq_len = sequence_length as int;
    let mut input_ids: Vec<i32> = Vec::new();
    let mut attention_mask: Vec<u32> = Vec::new();
    let mut row: usize = 0;
    while row < ids.len()
        invariant
            seq_len == sequence_length,
            sequence_length == padded_length(ids@, max_length),
            row <= ids@.len(),
            masks@.len() == ids@.len(),
            forall|r: int| 0 <= r < ids@.len() ==> #[trigger] masks@[r]@.len() >= ids@[r]@.len(),
            ids@.len() * seq_len <= usize::MAX,
            input_ids@.len() == row * seq_len,
            attention_mask@.len() == row * seq_len,
            forall|r: int, column: int|
                0 <= r < row && 0 <= column < seq_len ==> {
                    &&& #[trigger] input_ids@[cell_offset(r, seq_len, column)] == if column < ids@[r]@.len() {
                        ids@[r]@[column] as i32
                    } else {
                        pad_token_id
                    }
                    &&& attention_mask@[cell_offset(r, seq_len, column)] == if column < ids@[r]@.len() {
                        masks@[r]@[column]
                    } else {
                        0
                    }
                },
        decreases ids@.len() - row,
    {
        proof {
            lemma_row_bounds(row as int, ids@.len() as int, seq_len);
        }
        let tokens = &ids[row];
        let mask = &masks[row];
        let ghost start = row * seq_len;
        let mut column: usize = 0;
        while column < sequence_length
            invariant
                seq_len == sequence_length,
                row < ids@.len(),
                *tokens == ids@[row as int],
                *mask == masks@[row as int],
                mask@.len() >= tokens@.len(),
                start == row * seq_len,
                start + seq_len <= ids@.len() * seq_len,
                column <= sequence_length,
                input_ids@.len() == start + column,
                attention_mask@.len() == start + column,
                forall|r: int, c: int|
                    0 <= r < row && 0 <= c < seq_len ==> {
                        &&& #[trigger] input_ids@[cell_offset(r, seq_len, c)] == if c < ids@[r]@.len() {
                            ids@[r]@[c] as i32
                        } else {
                            pad_token_id
                        }
                        &&& attention_mask@[cell_offset(r, seq_len, c)] == if c < ids@[r]@.len() {
                            masks@[r]@[c]
                        } else {
                            0
                        }
                    },
                forall|c: int|
                    0 <= c < column ==> {
                        &&& #[trigger] input_ids@[cell_offset(row as int, seq_len, c)] == if c < tokens@.len() {
                            tokens@[c] as i32
                        } else {
                            pad_token_id
                        }
                        &&& attention_mask@[cell_offset(row as int, seq_len, c)] == if c < tokens@.len() {
                            mask@[c]
                        } else {
                            0
                        }
                    },
            decreases sequence_length - column,
        {
            proof {
                assert forall|r: int, c: int| 0 <= r < row && 0 <= c < seq_len implies cell_offset(r, seq_len, c)
                    < start by {
                    lemma_earlier_row(r, row as int, seq_len, c);
                }
            }
            if column < tokens.len() {
                input_ids.push(tokens[column] as i32);
                attention_mask.push(mask[column]);
            } else {
                input_ids.push(pad_token_id);
                attention_mask.push(0);
            }
            proof {
                assert(cell_offset(row as int, seq_len, column as int) == start + column);
            }
            column = column + 1;
        }
        proof {
            assert forall|r: int, c: int| 0 <= r < row + 1 && 0 <= c < seq_len implies {
                &&& #[trigger] input_ids@[cell_offset(r, seq_len, c)] == if c < ids@[r]@.len() {
                    ids@[r]@[c] as i32
                } else {
                    pad_token_id
                }
                &&& attention_mask@[cell_offset(r, seq_len, c)] == if c < ids@[r]@.len() {
                    masks@[r]@[c]
                } else {
                    0
                }
            } by {
                if r < row {
                    lemma_earlier_row(r, row as int, seq_len, c);
                }
            }
        }
        row = row + 1;
    }
    PaddedBatch { input_ids, attention_mask, sequence_length }
}

} // verus!
