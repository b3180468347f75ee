//! Which arrays the layers of a network are read from, and the sizes of the
//! pitch network's layers.

use crate::weights::{linear_layer_sizes, weight_count, WeightError};
use vstd::prelude::*;

verus! {

/// An array that a layer is read from, and the bytes that it has.
#[derive(Debug, Clone, Copy, PartialEq, Eq)]
pub struct ArrayRequest {
    pub name: &'static str,
    pub size: usize,
    /// The layer can do without it.
    pub optional: bool,
}

/// The names of the arrays that a linear layer has.
#[derive(Debug, Clone, Copy, PartialEq, Eq)]
pub struct LayerNames {
    pub bias: Option<&'static str>,
    pub subias: Option<&'static str>,
    pub weights: Option<&'static str>,
    pub float_weights: Option<&'static str>,
    pub weights_idx: Option<&'static str>,
    pub diag: Option<&'static str>,
    pub scale: Option<&'static str>,
}

/// A list of arrays with one more, if the layer has it.
pub open spec fn with_array(
    arrays: Seq<ArrayRequest>,
    name: Option<&'static str>,
    size: usize,
    optional: bool,
) -> Seq<ArrayRequest> {
    match name {
        Some(name) => arrays.push(ArrayRequest { name, size, optional }),
        None => arrays,
    }
}

fn add_array(arrays: &mut Vec<ArrayRequest>, name: Option<&'static str>, size: usize, optional: bool)
    ensures
        final(arrays)@ == with_array(old(arrays)@, name, size, optional),
{
    if let Some(name) = name {
        arrays.push(ArrayRequest { name, size, optional });
    }
}

/// The arrays with a float for each output, in the order in which they are read.
pub fn output_arrays(names: &LayerNames, nb_outputs: usize) -> (r: Vec<ArrayRequest>)
    requires
        4 * nb_outputs <= usize::MAX,
    ensures
        ({
            let size = (4 * nb_outputs) as usize;
            let bias = with_array(seq![], names.bias, size, false);
            r@ == with_array(
                with_array(bias, names.subias, size, false),
                names.diag,
                size,
                false,
            )
        }),
{
    let size: usize = 4 * nb_outputs;
    let mut arrays: Vec<ArrayRequest> = Vec::new();
    add_array(&mut arrays, names.bias, size, false);
    add_array(&mut arrays, names.subias, size, false);
    add_array(&mut arrays, names.diag, size, false);
    arrays
}

/// The arrays of the weights, in the order in which they are read: a layer with
/// weights of one byte also has their scale. A size that is no machine size ends
/// the list, and the layer is refused behind it.
pub open spec fn weights_read(
    names: LayerNames,
    nb_inputs: int,
    nb_outputs: int,
    blocks: Option<usize>,
) -> (Seq<ArrayRequest>, Option<WeightError>) {
    let n = weight_count(nb_inputs, nb_outputs, blocks);
    let bytes = with_array(seq![], names.weights, n as usize, false);
    if n > usize::MAX {
        (seq![], Some(WeightError::InvalidBlob))
    } else if 4 * n > usize::MAX {
        (bytes, Some(WeightError::InvalidBlob))
    } else {
        let floats = with_array(bytes, names.float_weights, (4 * n) as usize, true);
        let scale = if names.weights is Some {
            names.scale
        } else {
            None
        };
        (with_array(floats, scale, (4 * nb_outputs) as usize, false), None)
    }
}

/// The arrays of the weights of a layer; `blocks` are those of a sparse one.
pub fn weight_arrays(
    names: &LayerNames,
    nb_inputs: usize,
    nb_outputs: usize,
    blocks: Option<usize>,
) -> (r: (Vec<ArrayRequest>, Option<WeightError>))
    requires
        4 * nb_outputs <= usize::MAX,
    ensures
        (r.0@, r.1) == weights_read(*names, nb_inputs as int, nb_outputs as int, blocks),
{
    proof {
        assert(0 <= nb_inputs * nb_outputs) by (nonlinear_arith);
    }
    let mut arrays: Vec<ArrayRequest> = Vec::new();
    let count: Option<usize> = match blocks {
        Some(b) => b.checked_mul(32),
        None => nb_inputs.checked_mul(nb_outputs),
    };
    let weights: usize = match count {
        Some(n) => n,
        None => {
            assert(arrays@ =~= seq![]);
            return (arrays, Some(WeightError::InvalidBlob));
        },
    };
    add_array(&mut arrays, names.weights, weights, false);
    match linear_layer_sizes(nb_inputs, nb_outputs, blocks) {
        Ok(sizes) => {
            add_array(&mut arrays, names.float_weights, sizes.float_weights, true);
            if names.weights.is_some() {
                add_array(&mut arrays, names.scale, sizes.per_output, false);
            }
            (arrays, None)
        },
        Err(e) => (arrays, Some(e)),
    }
}

/// Inputs and outputs of a linear layer.
#[derive(Debug, Clone, Copy, PartialEq, Eq, Structural)]
pub struct LayerShape {
    pub nb_inputs: usize,
    pub nb_outputs: usize,
}

/// Channels and kernel of a two-dimensional convolution.
#[derive(Debug, Clone, Copy, PartialEq, Eq, Structural)]
pub struct ConvShape {
    pub in_channels: usize,
    pub out_channels: usize,
    pub ktime: usize,
    pub kheight: usize,
}

/// Values in the arrays of the pitch network.
#[derive(Debug, Clone, Copy, PartialEq, Eq, Structural)]
pub struct PitchArrays {
    pub dense_if_upsampler_1_bias: usize,
    pub dense_if_upsampler_1_weights: usize,
    pub dense_if_upsampler_2_bias: usize,
    pub dense_if_upsampler_2_weights: usize,
    pub dense_downsampler_bias: usize,
    pub dense_downsampler_weights: usize,
    pub dense_final_upsampler_bias: usize,
    pub dense_final_upsampler_weights: usize,
    pub gru_1_input_bias: usize,
    pub gru_1_recurrent_bias: usize,
    pub conv2d_1_bias: usize,
    pub conv2d_1_weights: usize,
    pub conv2d_2_bias: usize,
    pub conv2d_2_weights: usize,
}

/// Shapes of the pitch network's layers.
#[derive(Debug, Clone, Copy, PartialEq, Eq, Structural)]
pub struct PitchShapes {
    pub dense_if_upsampler_1: LayerShape,
    pub dense_if_upsampler_2: LayerShape,
    pub dense_downsampler: LayerShape,
    pub dense_final_upsampler: LayerShape,
    pub gru_1_input: LayerShape,
    pub gru_1_recurrent: LayerShape,
    pub conv2d_1: ConvShape,
    pub conv2d_2: ConvShape,
}

/// Rows and columns of the kernels of the pitch network.
pub const CONV_KERNEL: usize = 3;

pub open spec fn dense_shape(weights: int, outputs: usize) -> LayerShape {
    LayerShape { nb_inputs: (weights / outputs as int) as usize, nb_outputs: outputs }
}

pub open spec fn conv_shape(weights: int, outputs: usize) -> ConvShape {
    ConvShape {
        in_channels: (weights / (outputs * CONV_KERNEL * CONV_KERNEL)) as usize,
        out_channels: outputs,
        ktime: CONV_KERNEL,
        kheight: CONV_KERNEL,
    }
}

fn shape_conv(weights: usize, outputs: usize) -> (r: ConvShape)
    requires
        0 < outputs <= 0xffff,
    ensures
        r == conv_shape(weights as int, outputs),
{
    ConvShape {
        in_channels: weights / (outputs * CONV_KERNEL * CONV_KERNEL),
        out_channels: outputs,
        ktime: CONV_KERNEL,
        kheight: CONV_KERNEL,
    }
}

/// The shapes of the pitch network's layers follow from the sizes of its arrays.
/// The recurrent layer has a third as many units as outputs, and its input is
/// the downsampled frame.
pub fn pitch_shapes(a: &PitchArrays) -> (r: PitchShapes)
    requires
        a.dense_if_upsampler_1_bias > 0,
        a.dense_if_upsampler_2_bias > 0,
        a.dense_downsampler_bias > 0,
        a.dense_final_upsampler_bias > 0,
        0 < a.conv2d_1_bias <= 0xffff,
        0 < a.conv2d_2_bias <= 0xffff,
    ensures
        r == (PitchShapes {
            dense_if_upsampler_1: dense_shape(
                a.dense_if_upsampler_1_weights as int,
                a.dense_if_upsampler_1_bias,
            ),
            dense_if_upsampler_2: dense_shape(
                a.dense_if_upsampler_2_weights as int,
                a.dense_if_upsampler_2_bias,
            ),
            dense_downsampler: dense_shape(
                a.dense_downsampler_weights as int,
                a.dense_downsampler_bias,
            ),
            dense_final_upsampler: dense_shape(
                a.dense_final_upsampler_weights as int,
                a.dense_final_upsampler_bias,
            ),
            gru_1_input: LayerShape {
                nb_inputs: a.dense_downsampler_bias,
                nb_outputs: a.gru_1_input_bias,
            },
            gru_1_recurrent: LayerShape {
                nb_inputs: a.gru_1_recurrent_bias / 3,
                nb_outputs: a.gru_1_recurrent_bias,
            },
            conv2d_1: conv_shape(a.conv2d_1_weights as int, a.conv2d_1_bias),
            conv2d_2: conv_shape(a.conv2d_2_weights as int, a.conv2d_2_bias),
        }),
{
    PitchShapes {
        dense_if_upsampler_1: LayerShape {
            nb_inputs: a.dense_if_upsampler_1_weights / a.dense_if_upsampler_1_bias,
            nb_outputs: a.dense_if_upsampler_1_bias,
        },
        dense_if_upsampler_2: LayerShape {
            nb_inputs: a.dense_if_upsampler_2_weights / a.dense_if_upsampler_2_bias,
            nb_outputs: a.dense_if_upsampler_2_bias,
        },
        dense_downsampler: LayerShape {
            nb_inputs: a.dense_downsampler_weights / a.dense_downsampler_bias,
            nb_outputs: a.dense_downsampler_bias,
        },
        dense_final_upsampler: LayerShape {
            nb_inputs: a.dense_final_upsampler_weights / a.dense_final_upsampler_bias,
            nb_outputs: a.dense_final_upsampler_bias,
        },
        gru_1_input: LayerShape {
            nb_inputs: a.dense_downsampler_bias,
            nb_outputs: a.gru_1_input_bias,
        },
        gru_1_recurrent: LayerShape {
            nb_inputs: a.gru_1_recurrent_bias / 3,
            nb_outputs: a.gru_1_recurrent_bias,
        },
        conv2d_1: shape_conv(a.conv2d_1_weights, a.conv2d_1_bias),
        conv2d_2: shape_conv(a.conv2d_2_weights, a.conv2d_2_bias),
    }
}

/// The bins around the most likely one that the pitch is averaged over: two on
/// each side, as far as there are any.
pub fn pitch_window(pos: usize, bins: usize) -> (r: (usize, usize))
    requires
        pos <= bins <= 0x7fff_ffff,
    ensures
        r.0 == if pos >= 2 {
            pos - 2
        } else {
            0
        },
        r.1 == if bins == 0 {
            0
        } else if pos + 2 < bins - 1 {
            pos + 2
        } else {
            bins - 1
        },
{
    let start: usize = if pos >= 2 {
        pos - 2
    } else {
        0
    };
    let last: usize = if bins == 0 {
        0
    } else {
        bins - 1
    };
    let end: usize = if pos + 2 < last {
        pos + 2
    } else {
        last
    };
    (start, end)
}

} // verus!
