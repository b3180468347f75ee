//! Shapes of network layers: block-sparse index lists, and the bytes that the
//! arrays of a layer take.
use vstd::prelude::*;

verus! {

/// Why the weights of a network are refused.
#[derive(Debug, Clone, Copy, PartialEq, Eq)]
pub enum WeightError {
    InvalidBlob,
    MissingArray(&'static str),
    InvalidIndex(&'static str),
}

/// The offset of a block: a multiple of 4 with four inputs behind it.
pub open spec fn block_offset_ok(offset: int, nb_inputs: int) -> bool {
    offset >= 0 && offset + 3 < nb_inputs && offset % 4 == 0
}

/// Groups and blocks of an index list. Each group of 8 outputs is a number of
/// blocks, followed by their offsets.
pub open spec fn sparse_shape(idx: Seq<i32>, nb_inputs: int) -> Option<(int, int)>
    decreases idx.len(),
{
    if idx.len() == 0 {
        Some((0, 0))
    } else if idx[0] < 0 || idx[0] > idx.len() - 1 {
        None
    } else if exists|k: int| 1 <= k <= idx[0] && !block_offset_ok(#[trigger] idx[k] as int, nb_inputs) {
        None
    } else {
        match sparse_shape(idx.skip(idx[0] + 1), nb_inputs) {
            Some((groups, blocks)) => Some((groups + 1, blocks + idx[0])),
            None => None,
        }
    }
}

/// Blocks of an index list that fits the layer.
pub open spec fn sparse_blocks(idx: Seq<i32>, nb_inputs: int, nb_outputs: int) -> Option<int> {
    match sparse_shape(idx, nb_inputs) {
        Some((groups, blocks)) => if 8 * groups == nb_outputs {
            Some(blocks)
        } else {
            None
        },
        None => None,
    }
}

proof fn lemma_shape_bounds(idx: Seq<i32>, nb_inputs: int)
    ensures
        match sparse_shape(idx, nb_inputs) {
            Some((groups, blocks)) => 0 <= groups && 0 <= blocks && groups + blocks == idx.len(),
            None => true,
        },
    decreases idx.len(),
{
    if idx.len() > 0 && 0 <= idx[0] <= idx.len() - 1 {
        lemma_shape_bounds(idx.skip(idx[0] + 1), nb_inputs);
    }
}

/// Groups and blocks of an index list.
fn walk_sparse_idx(idx: &[i32], nb_inputs: usize) -> (r: Option<(usize, usize)>)
    ensures
        match sparse_shape(idx@, nb_inputs as int) {
            Some((groups, blocks)) => r == Some((groups as usize, blocks as usize)) && groups
                + blocks == idx@.len() && 0 <= groups <= usize::MAX && 0 <= blocks <= usize::MAX,
            None => r is None,
        },
{
    let n: usize = idx.len();
    let ghost inputs = nb_inputs as int;
    let ghost whole = sparse_shape(idx@, inputs);
    let mut pos: usize = 0;
    let mut groups: usize = 0;
    let mut blocks: usize = 0;
    proof {
        lemma_shape_bounds(idx@, inputs);
        assert(idx@.skip(0) =~= idx@);
    }
    while pos < n
        invariant
            n == idx@.len(),
            inputs == nb_inputs,
            pos <= n,
            groups + blocks == pos,
            whole == sparse_shape(idx@, inputs),
            match sparse_shape(idx@.skip(pos as int), inputs) {
                Some((g, b)) => whole == Some((groups + g, blocks + b)),
                None => whole is None,
            },
        decreases n - pos,
    {
        let ghost rest = idx@.skip(pos as int);
        let count: i32 = idx[pos];
        assert(rest[0] == count);
        if count < 0 || count as usize > n - pos - 1 {
            return None;
        }
        let end: usize = pos + 1 + count as usize;
        let mut k: usize = pos + 1;
        while k < end
            invariant
                n == idx@.len(),
                inputs == nb_inputs,
                pos < k <= end <= n,
                end == pos + 1 + count,
                count >= 0,
                rest == idx@.skip(pos as int),
                rest[0] == count,
                rest.len() == n - pos,
                whole == sparse_shape(idx@, inputs),
                match sparse_shape(rest, inputs) {
                    Some((g, b)) => whole == Some((groups + g, blocks + b)),
                    None => whole is None,
                },
                forall|j: int|
                    1 <= j < k - pos ==> block_offset_ok(#[trigger] rest[j] as int, inputs),
            decreases end - k,
        {
            let offset: i32 = idx[k];
            assert(rest[k - pos] == offset);
            if offset < 0 || offset as u64 + 3 >= nb_inputs as u64 || offset % 4 != 0 {
                return None;
            }
            k = k + 1;
        }
        proof {
            assert(idx@.skip(end as int) =~= rest.skip(count + 1));
        }
        groups = groups + 1;
        blocks = blocks + count as usize;
        pos = end;
    }
    Some((groups, blocks))
}

/// Blocks of an index list; 0 where it does not fit the layer.
pub fn sparse_block_count(idx: &[i32], nb_inputs: usize, nb_outputs: usize) -> (r: usize)
    ensures
        r == match sparse_blocks(idx@, nb_inputs as int, nb_outputs as int) {
            Some(blocks) => blocks,
            None => 0,
        },
{
    match walk_sparse_idx(idx, nb_inputs) {
        Some((groups, blocks)) => if nb_outputs % 8 == 0 && nb_outputs / 8 == groups {
            blocks
        } else {
            0
        },
        None => 0,
    }
}

/// Blocks of an index list, which has to fit the layer.
pub fn validate_sparse_idx(
    idx: &[i32],
    nb_inputs: usize,
    nb_outputs: usize,
    name: &'static str,
) -> (r: Result<usize, WeightError>)
    ensures
        match sparse_blocks(idx@, nb_inputs as int, nb_outputs as int) {
            Some(blocks) => r == Ok::<usize, WeightError>(blocks as usize),
            None => r == Err::<usize, WeightError>(WeightError::InvalidIndex(name)),
        },
{
    match walk_sparse_idx(idx, nb_inputs) {
        Some((groups, blocks)) => if nb_outputs % 8 == 0 && nb_outputs / 8 == groups {
            Ok(blocks)
        } else {
            Err(WeightError::InvalidIndex(name))
        },
        None => Err(WeightError::InvalidIndex(name)),
    }
}

/// A list that fits a layer never has more blocks than entries.
pub proof fn law_blocks_are_listed(idx: Seq<i32>, nb_inputs: int, nb_outputs: int)
    requires
        sparse_blocks(idx, nb_inputs, nb_outputs) is Some,
    ensures
        sparse_blocks(idx, nb_inputs, nb_outputs)->0 + nb_outputs / 8 == idx.len(),
{
    lemma_shape_bounds(idx, nb_inputs);
}

/// The 32-bit number of four bytes, the low one first.
pub open spec fn number_of(b0: u8, b1: u8, b2: u8, b3: u8) -> int {
    let v = b0 + 0x100 * b1 + 0x1_0000 * b2 + 0x100_0000 * b3;
    if v >= 0x8000_0000 {
        v - 0x1_0000_0000
    } else {
        v
    }
}

/// The 32-bit numbers of an array; an error where bytes are left over.
pub fn numbers_of_bytes(data: &[u8]) -> (r: Result<Vec<i32>, WeightError>)
    ensures
        match r {
            Err(e) => data@.len() % 4 != 0 && e == WeightError::InvalidBlob,
            Ok(v) => data@.len() % 4 == 0 && v@.len() == data@.len() / 4 && forall|i: int|
                0 <= i < v@.len() ==> #[trigger] v@[i] == number_of(
                    data@[4 * i],
                    data@[4 * i + 1],
                    data@[4 * i + 2],
                    data@[4 * i + 3],
                ),
        },
{
    let n: usize = data.len();
    if n % 4 != 0 {
        return Err(WeightError::InvalidBlob);
    }
    let count: usize = n / 4;
    let mut out: Vec<i32> = Vec::new();
    for i in 0..count
        invariant
            n == data@.len(),
            count == n / 4,
            n % 4 == 0,
            out@.len() == i,
            forall|j: int|
                0 <= j < i ==> #[trigger] out@[j] == number_of(
                    data@[4 * j],
                    data@[4 * j + 1],
                    data@[4 * j + 2],
                    data@[4 * j + 3],
                ),
    {
        let v: i64 = data[4 * i] as i64 + 0x100 * data[4 * i + 1] as i64 + 0x1_0000 * data[4 * i
            + 2] as i64 + 0x100_0000 * data[4 * i + 3] as i64;
        let signed: i64 = if v >= 0x8000_0000 {
            v - 0x1_0000_0000
        } else {
            v
        };
        out.push(signed as i32);
    }
    Ok(out)
}

/// Bytes of the arrays of a linear layer.
#[derive(Debug, Clone, Copy, PartialEq, Eq, Structural)]
pub struct LinearLayerSizes {
    /// Bias, scale and diagonal: a float for each output.
    pub per_output: usize,
    /// Weights of one byte.
    pub weights: usize,
    /// Weights as floats.
    pub float_weights: usize,
}

/// Weights of a layer: 32 for each block of a sparse one, else one for each
/// input and output.
pub open spec fn weight_count(nb_inputs: int, nb_outputs: int, blocks: Option<usize>) -> int {
    match blocks {
        Some(b) => 32 * b,
        None => nb_inputs * nb_outputs,
    }
}

/// Bytes of the arrays of a linear layer; `blocks` are those of a sparse one.
pub fn linear_layer_sizes(nb_inputs: usize, nb_outputs: usize, blocks: Option<usize>) -> (r: Result<
    LinearLayerSizes,
    WeightError,
>)
    ensures
        ({
            let n = weight_count(nb_inputs as int, nb_outputs as int, blocks);
            if 4 * nb_outputs > usize::MAX || n > usize::MAX || 4 * n > usize::MAX {
                r == Err::<LinearLayerSizes, WeightError>(WeightError::InvalidBlob)
            } else {
                r == Ok::<LinearLayerSizes, WeightError>(
                    LinearLayerSizes {
                        per_output: (4 * nb_outputs) as usize,
                        weights: n as usize,
                        float_weights: (4 * n) as usize,
                    },
                )
            }
        }),
{
    proof {
        assert(0 <= nb_inputs * nb_outputs) by (nonlinear_arith);
    }
    let per_output: usize = match nb_outputs.checked_mul(4) {
        Some(v) => v,
        None => return Err(WeightError::InvalidBlob),
    };
    let count: Option<usize> = match blocks {
        Some(b) => b.checked_mul(32),
        None => nb_inputs.checked_mul(nb_outputs),
    };
    match count {
        Some(weights) => match weights.checked_mul(4) {
            Some(float_weights) => Ok(LinearLayerSizes { per_output, weights, float_weights }),
            None => Err(WeightError::InvalidBlob),
        },
        None => Err(WeightError::InvalidBlob),
    }
}

/// Bytes of the weights of a two-dimensional convolution.
pub fn conv2d_weight_size(in_channels: usize, out_channels: usize, ktime: usize, kheight: usize) -> (r:
    Result<usize, WeightError>)
    ensures
        match r {
            Ok(v) => v == out_channels * in_channels * ktime * kheight * 4,
            Err(e) => e == WeightError::InvalidBlob && (out_channels * in_channels > usize::MAX
                || out_channels * in_channels * ktime > usize::MAX || out_channels * in_channels
                * ktime * kheight > usize::MAX || out_channels * in_channels * ktime * kheight * 4
                > usize::MAX),
        },
{
    proof {
        assert(0 <= out_channels * in_channels) by (nonlinear_arith);
        assert(0 <= out_channels * in_channels * ktime) by (nonlinear_arith)
            requires
                0 <= out_channels * in_channels,
                ktime >= 0,
        ;
        assert(0 <= out_channels * in_channels * ktime * kheight) by (nonlinear_arith)
            requires
                0 <= out_channels * in_channels * ktime,
                kheight >= 0,
        ;
    }
    let a: usize = match out_channels.checked_mul(in_channels) {
        Some(v) => v,
        None => return Err(WeightError::InvalidBlob),
    };
    let b: usize = match a.checked_mul(ktime) {
        Some(v) => v,
        None => return Err(WeightError::InvalidBlob),
    };
    let c: usize = match b.checked_mul(kheight) {
        Some(v) => v,
        None => return Err(WeightError::InvalidBlob),
    };
    match c.checked_mul(4) {
        Some(v) => Ok(v),
        None => Err(WeightError::InvalidBlob),
    }
}

/// Units of a gated recurrent layer: its input layer has three outputs for
/// each.
pub fn gru_units(nb_outputs: usize) -> (r: Result<usize, WeightError>)
    ensures
        r == (if nb_outputs % 3 == 0 {
            Ok::<usize, WeightError>(nb_outputs / 3)
        } else {
            Err(WeightError::InvalidBlob)
        }),
{
    if nb_outputs % 3 != 0 {
        Err(WeightError::InvalidBlob)
    } else {
        Ok(nb_outputs / 3)
    }
}

} // verus!
