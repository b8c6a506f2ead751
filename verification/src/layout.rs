use vstd::prelude::*;

verus! {

/// Features per time step fed to the recurrent model.
pub const INPUT_DIM: usize = 4;

/// Width of the recurrent hidden state.
pub const HIDDEN_DIM: usize = 8;

/// Outputs of the model (one threat score).
pub const OUTPUT_DIM: usize = 1;

/// Length of the model's flat parameter vector:
/// input->hidden weights, hidden->hidden weights, hidden->output weights,
/// hidden bias, output bias.
pub const PARAMETER_COUNT: usize = 113;

/// Where each block of the flat parameter vector starts.
pub open spec fn hh_start() -> int { (INPUT_DIM * HIDDEN_DIM) as int }
pub open spec fn ho_start() -> int { hh_start() + (HIDDEN_DIM * HIDDEN_DIM) as int }
pub open spec fn hb_start() -> int { ho_start() + (HIDDEN_DIM * OUTPUT_DIM) as int }
pub open spec fn ob_start() -> int { hb_start() + HIDDEN_DIM as int }

/// The five blocks sum up to the advertised parameter count.
pub proof fn lemma_layout_covers_parameters()
    ensures
        hh_start() == 32,
        ho_start() == 96,
        hb_start() == 104,
        ob_start() == 112,
        ob_start() + OUTPUT_DIM as int == PARAMETER_COUNT as int,
{
}

/// The model's parameters split into their five blocks, each in row-major
/// order.
pub struct ParameterSegments<T> {
    pub input_hidden: Vec<T>,
    pub hidden_hidden: Vec<T>,
    pub hidden_output: Vec<T>,
    pub hidden_bias: Vec<T>,
    pub output_bias: Vec<T>,
}

/// The five blocks cut out of a flat vector of `PARAMETER_COUNT` values.
pub open spec fn segments_of<T>(flat: Seq<T>) -> (Seq<T>, Seq<T>, Seq<T>, Seq<T>, Seq<T>) {
    (
        flat.subrange(0, hh_start()),
        flat.subrange(hh_start(), ho_start()),
        flat.subrange(ho_start(), hb_start()),
        flat.subrange(hb_start(), ob_start()),
        flat.subrange(ob_start(), PARAMETER_COUNT as int),
    )
}

/// The flat vector made of five blocks, in layout order.
pub open spec fn flat_of<T>(s: (Seq<T>, Seq<T>, Seq<T>, Seq<T>, Seq<T>)) -> Seq<T> {
    s.0 + s.1 + s.2 + s.3 + s.4
}

impl<T> ParameterSegments<T> {
    /// The five blocks, by their views.
    pub open spec fn blocks(&self) -> (Seq<T>, Seq<T>, Seq<T>, Seq<T>, Seq<T>) {
        (self.input_hidden@, self.hidden_hidden@, self.hidden_output@, self.hidden_bias@, self.output_bias@)
    }

    /// Every block has the length the model's shape asks for.
    pub open spec fn well_shaped(&self) -> bool {
        &&& self.input_hidden@.len() == INPUT_DIM * HIDDEN_DIM
        &&& self.hidden_hidden@.len() == HIDDEN_DIM * HIDDEN_DIM
        &&& self.hidden_output@.len() == HIDDEN_DIM * OUTPUT_DIM
        &&& self.hidden_bias@.len() == HIDDEN_DIM
        &&& self.output_bias@.len() == OUTPUT_DIM
    }
}

/// Copies `flat[start..end]` into a new vector.
fn copy_range<T: Copy>(flat: &[T], start: usize, end: usize) -> (res: Vec<T>)
    requires
        start <= end <= flat@.len(),
    ensures
        res@ == flat@.subrange(start as int, end as int),
{
    let mut res: Vec<T> = Vec::new();
    let mut i: usize = start;
    while i < end
        invariant
            start <= i <= end,
            end <= flat@.len(),
            res@ == flat@.subrange(start as int, i as int),
        decreases end - i,
    {
        res.push(flat[i]);
        proof {
            assert(res@ =~= flat@.subrange(start as int, i as int + 1));
        }
        i = i + 1;
    }
    res
}

/// Appends all of `part` to `out`.
fn append_copy<T: Copy>(out: &mut Vec<T>, part: &Vec<T>)
    ensures
        final(out)@ == old(out)@ + part@,
{
    let n = part.len();
    let mut i: usize = 0;
    while i < n
        invariant
            n == part@.len(),
            i <= n,
            out@ == old(out)@ + part@.take(i as int),
        decreases n - i,
    {
        out.push(part[i]);
        proof {
            assert(out@ =~= old(out)@ + part@.take(i as int + 1));
        }
        i = i + 1;
    }
    assert(part@.take(n as int) =~= part@);
}

/// Splits a flat vector of exactly `PARAMETER_COUNT` values into the model's
/// five parameter blocks.
pub fn unflatten_weights<T: Copy>(flat_weights: &[T]) -> (segs: ParameterSegments<T>)
    requires
        flat_weights@.len() == PARAMETER_COUNT,
    ensures
        segs.blocks() == segments_of(flat_weights@),
        segs.well_shaped(),
{
    ParameterSegments {
        input_hidden: copy_range(flat_weights, 0, 32),
        hidden_hidden: copy_range(flat_weights, 32, 96),
        hidden_output: copy_range(flat_weights, 96, 104),
        hidden_bias: copy_range(flat_weights, 104, 112),
        output_bias: copy_range(flat_weights, 112, 113),
    }
}

/// Concatenates the five parameter blocks, in layout order, into one flat
/// vector.
pub fn flatten_gradients<T: Copy>(segs: &ParameterSegments<T>) -> (flat: Vec<T>)
    ensures
        flat@ == flat_of(segs.blocks()),
        segs.well_shaped() ==> flat@.len() == PARAMETER_COUNT,
{
    let mut flat: Vec<T> = Vec::new();
    append_copy(&mut flat, &segs.input_hidden);
    append_copy(&mut flat, &segs.hidden_hidden);
    append_copy(&mut flat, &segs.hidden_output);
    append_copy(&mut flat, &segs.hidden_bias);
    append_copy(&mut flat, &segs.output_bias);
    assert(flat@ =~= flat_of(segs.blocks()));
    flat
}

/// Splitting a parameter vector and flattening its blocks gives the vector
/// back.
pub proof fn lemma_flatten_after_unflatten<T>(flat: Seq<T>)
    requires
        flat.len() == PARAMETER_COUNT,
    ensures
        flat_of(segments_of(flat)) == flat,
{
    assert(flat_of(segments_of(flat)) =~= flat);
}

/// Flattening well-shaped blocks and splitting the result gives the same
/// blocks back.
pub proof fn lemma_unflatten_after_flatten<T>(blocks: (Seq<T>, Seq<T>, Seq<T>, Seq<T>, Seq<T>))
    requires
        blocks.0.len() == INPUT_DIM * HIDDEN_DIM,
        blocks.1.len() == HIDDEN_DIM * HIDDEN_DIM,
        blocks.2.len() == HIDDEN_DIM * OUTPUT_DIM,
        blocks.3.len() == HIDDEN_DIM,
        blocks.4.len() == OUTPUT_DIM,
    ensures
        flat_of(blocks).len() == PARAMETER_COUNT,
        segments_of(flat_of(blocks)) == blocks,
{
    let f = flat_of(blocks);
    assert(f.subrange(0, hh_start()) =~= blocks.0);
    assert(f.subrange(hh_start(), ho_start()) =~= blocks.1);
    assert(f.subrange(ho_start(), hb_start()) =~= blocks.2);
    assert(f.subrange(hb_start(), ob_start()) =~= blocks.3);
    assert(f.subrange(ob_start(), PARAMETER_COUNT as int) =~= blocks.4);
}

} // verus!
