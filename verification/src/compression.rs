use vstd::prelude::*;
use crate::protocol::GradientUpdate;

verus! {

// ---------------------------------------------------------------------------
// Top-k sparsification: how many parameters are sent, and which ones.
// ---------------------------------------------------------------------------

/// Number of parameters a top-k update keeps out of `n`: the requested count
/// clamped into `1..=n`, so that even a degenerate request sends something.
pub open spec fn top_k_spec(n: int, requested: int) -> int {
    if requested < 1 {
        1
    } else if requested > n {
        n
    } else {
        requested
    }
}

/// The top-k count is the request clamped into `1..=n`: a request inside the
/// range is kept exactly, a request of zero sends one parameter, and every
/// parameter is sent only when at least `n` were requested.
pub proof fn lemma_top_k_is_clamp(n: int, requested: int)
    requires
        n >= 1,
        requested >= 0,
    ensures
        top_k_spec(n, requested) == if requested < 1 {
            1
        } else if requested < n {
            requested
        } else {
            n
        },
        1 <= requested <= n ==> top_k_spec(n, requested) == requested,
        top_k_spec(n, requested) == n && n > 1 ==> requested >= n,
        1 <= top_k_spec(n, requested) <= n,
{
}

/// Clamps the requested number of transmitted parameters into `1..=n`.
pub fn top_k_count(n: usize, requested: usize) -> (k: usize)
    requires
        n >= 1,
    ensures
        k == top_k_spec(n as int, requested as int),
        1 <= k <= n,
        1 <= requested <= n ==> k == requested,
        requested == 0 ==> k == 1,
        requested > n ==> k == n,
        k == n && n > 1 ==> requested >= n,
{
    if requested < 1 {
        1
    } else if requested > n {
        n
    } else {
        requested
    }
}

/// Position, in ascending magnitude order, of the smallest magnitude that is
/// still transmitted: `n - k` where `k` is the clamped top-k count.
pub fn top_k_target_index(n: usize, requested: usize) -> (idx: usize)
    requires
        n >= 1,
    ensures
        idx == n - top_k_spec(n as int, requested as int),
        idx < n,
        1 <= requested <= n ==> idx == n - requested,
        requested == 0 ==> idx == n - 1,
        requested >= n ==> idx == 0,
        idx == 0 && n > 1 ==> requested >= n,
{
    let k = top_k_count(n, requested);
    n - k
}

/// The indices `i` (in increasing order, written as `u32`) at which `marks[i]`
/// holds.
pub open spec fn marked_indices(marks: Seq<bool>) -> Seq<u32>
    decreases marks.len(),
{
    if marks.len() == 0 {
        Seq::empty()
    } else {
        let rest = marked_indices(marks.drop_last());
        if marks.last() {
            rest.push((marks.len() - 1) as u32)
        } else {
            rest
        }
    }
}

/// Builds the sparse index list of an update: the positions whose gradient
/// passed the top-k magnitude cut-off, in increasing order.  `marks[i]`
/// records whether position `i` passed.
pub fn build_index_mask(marks: &[bool]) -> (indices: Vec<u32>)
    ensures
        indices@ == marked_indices(marks@),
{
    let mut indices: Vec<u32> = Vec::new();
    let n = marks.len();
    let mut i: usize = 0;
    while i < n
        invariant
            n == marks@.len(),
            i <= n,
            indices@ == marked_indices(marks@.take(i as int)),
        decreases n - i,
    {
        proof {
            assert(marks@.take(i as int + 1).drop_last() =~= marks@.take(i as int));
        }
        if marks[i] {
            indices.push(i as u32);
        }
        i = i + 1;
    }
    proof {
        assert(marks@.take(n as int) =~= marks@);
    }
    indices
}

/// When every position fits in a `u32`, the index list holds exactly the
/// marked positions, each once, in strictly increasing order.
pub proof fn lemma_marked_indices_exact(marks: Seq<bool>)
    requires
        marks.len() <= u32::MAX + 1,
    ensures
        forall|k: int|
            0 <= k < marked_indices(marks).len() ==> {
                &&& (#[trigger] marked_indices(marks)[k]) < marks.len()
                &&& marks[marked_indices(marks)[k] as int]
            },
        forall|k1: int, k2: int|
            0 <= k1 < k2 < marked_indices(marks).len() ==> #[trigger] marked_indices(marks)[k1]
                < #[trigger] marked_indices(marks)[k2],
        forall|i: int|
            0 <= i < marks.len() && #[trigger] marks[i] ==> marked_indices(marks).contains(
                i as u32,
            ),
    decreases marks.len(),
{
    if marks.len() > 0 {
        let prev = marks.drop_last();
        lemma_marked_indices_exact(prev);
        let r = marked_indices(marks);
        let rp = marked_indices(prev);
        assert forall|i: int| 0 <= i < marks.len() && #[trigger] marks[i] implies r.contains(
            i as u32,
        ) by {
            if i < marks.len() - 1 {
                assert(prev[i] == marks[i]);
                assert(rp.contains(i as u32));
                let k = choose|k: int| 0 <= k < rp.len() && rp[k] == i as u32;
                assert(r[k] == rp[k]);
            } else {
                assert(r[r.len() - 1] == i as u32);
            }
        }
    }
}

/// Every index in the list names a position of the marked vector.
pub proof fn lemma_marked_indices_in_bounds(marks: Seq<bool>)
    ensures
        forall|k: int|
            0 <= k < marked_indices(marks).len() ==> (#[trigger] marked_indices(marks)[k]) < marks.len(),
    decreases marks.len(),
{
    if marks.len() > 0 {
        let prev = marks.drop_last();
        lemma_marked_indices_in_bounds(prev);
        let last_index: int = marks.len() - 1;
        let x = last_index as u32;
        if last_index <= u32::MAX {
            assert(x == last_index);
        }
        assert(x < marks.len());
        let r = marked_indices(marks);
        let rp = marked_indices(prev);
        assert forall|k: int| 0 <= k < r.len() implies (#[trigger] r[k]) < marks.len() by {
            if k < rp.len() {
                assert(r[k] == rp[k]);
            }
        }
    }
}

/// Gathers the transmitted values: `values[k] == gradients[index_mask[k]]`.
pub fn extract_top_k_values<T: Copy>(gradients: &[T], index_mask: &[u32]) -> (values: Vec<T>)
    requires
        forall|k: int| 0 <= k < index_mask@.len() ==> (#[trigger] index_mask@[k]) < gradients@.len(),
    ensures
        values@.len() == index_mask@.len(),
        forall|k: int|
            0 <= k < index_mask@.len() ==> #[trigger] values@[k] == gradients@[index_mask@[k] as int],
{
    let mut values: Vec<T> = Vec::new();
    let m = index_mask.len();
    let mut k: usize = 0;
    while k < m
        invariant
            m == index_mask@.len(),
            k <= m,
            forall|j: int| 0 <= j < index_mask@.len() ==> (#[trigger] index_mask@[j]) < gradients@.len(),
            values@.len() == k,
            forall|j: int| 0 <= j < k ==> #[trigger] values@[j] == gradients@[index_mask@[j] as int],
        decreases m - k,
    {
        let idx = index_mask[k] as usize;
        values.push(gradients[idx]);
        k = k + 1;
    }
    values
}

/// Packs one round's sparse update: the positions whose gradient passed the
/// top-k cut-off (`marks[i]`) and the gradient values found there.
pub fn compress_and_package<V: Copy>(
    node_id: String,
    round_id: u32,
    gradients: &[V],
    marks: &[bool],
) -> (update: GradientUpdate<V>)
    requires
        marks@.len() == gradients@.len(),
    ensures
        update.node_id == node_id,
        update.round_id == round_id,
        update.indices@ == marked_indices(marks@),
        update.values@.len() == update.indices@.len(),
        forall|k: int|
            0 <= k < update.indices@.len() ==> #[trigger] update.values@[k]
                == gradients@[update.indices@[k] as int],
{
    let indices = build_index_mask(marks);
    proof {
        lemma_marked_indices_in_bounds(marks@);
    }
    let values = extract_top_k_values(gradients, &indices);
    GradientUpdate { node_id, round_id, indices, values }
}

// ---------------------------------------------------------------------------
// Error feedback: what is not transmitted is banked for the next round.
// ---------------------------------------------------------------------------

/// Position `i` is named by some entry of the transmitted index list.
pub open spec fn is_transmitted(transmitted: Seq<u32>, i: int) -> bool {
    exists|j: int| 0 <= j < transmitted.len() && transmitted[j] as int == i
}

/// The residue of one round: the accumulated gradient with every transmitted
/// position reset to `zero`.
pub open spec fn residue_spec<T>(accumulated: Seq<T>, transmitted: Seq<u32>, zero: T) -> Seq<T> {
    Seq::new(
        accumulated.len(),
        |i: int|
            if is_transmitted(transmitted, i) {
                zero
            } else {
                accumulated[i]
            },
    )
}

/// Per-node store of the gradient mass that earlier rounds did not transmit.
pub struct ErrorAccumulator<T> {
    pub residue: Vec<T>,
}

impl<T: Copy> ErrorAccumulator<T> {
    /// A store for `capacity` parameters, all starting at `zero`.
    pub fn new(capacity: usize, zero: T) -> (acc: Self)
        ensures
            acc.residue@ == Seq::new(capacity as nat, |i: int| zero),
    {
        let mut residue: Vec<T> = Vec::new();
        let mut i: usize = 0;
        while i < capacity
            invariant
                i <= capacity,
                residue@ == Seq::new(i as nat, |j: int| zero),
            decreases capacity - i,
        {
            residue.push(zero);
            i = i + 1;
        }
        ErrorAccumulator { residue }
    }
}

/// Copies the accumulated gradients and resets every transmitted position to
/// `zero`; what remains is banked for the next round.
pub fn calculate_residue<T: Copy>(accumulated_gradients: &[T], transmitted_indices: &[u32], zero: T) -> (residue: Vec<T>)
    requires
        forall|k: int|
            0 <= k < transmitted_indices@.len() ==> (#[trigger] transmitted_indices@[k])
                < accumulated_gradients@.len(),
    ensures
        residue@ == residue_spec(accumulated_gradients@, transmitted_indices@, zero),
        residue@.len() == accumulated_gradients@.len(),
        forall|j: int|
            0 <= j < transmitted_indices@.len() ==> residue@[#[trigger] transmitted_indices@[j] as int]
                == zero,
        forall|i: int|
            0 <= i < accumulated_gradients@.len() && (forall|j: int|
                0 <= j < transmitted_indices@.len() ==> #[trigger] transmitted_indices@[j] as int != i)
                ==> residue@[i] == accumulated_gradients@[i],
{
    let n = accumulated_gradients.len();
    let mut residue: Vec<T> = Vec::new();
    let mut i: usize = 0;
    while i < n
        invariant
            n == accumulated_gradients@.len(),
            i <= n,
            residue@ == accumulated_gradients@.take(i as int),
        decreases n - i,
    {
        residue.push(accumulated_gradients[i]);
        i = i + 1;
    }
    assert(residue@ =~= accumulated_gradients@);
    let m = transmitted_indices.len();
    let mut k: usize = 0;
    while k < m
        invariant
            n == accumulated_gradients@.len(),
            m == transmitted_indices@.len(),
            k <= m,
            forall|j: int| 0 <= j < m ==> (#[trigger] transmitted_indices@[j]) < n,
            residue@.len() == n,
            forall|i: int|
                0 <= i < n ==> #[trigger] residue@[i] == if is_transmitted(
                    transmitted_indices@.take(k as int),
                    i,
                ) {
                    zero
                } else {
                    accumulated_gradients@[i]
                },
        decreases m - k,
    {
        let idx = transmitted_indices[k] as usize;
        residue.set(idx, zero);
        proof {
            let t0 = transmitted_indices@.take(k as int);
            let t1 = transmitted_indices@.take(k as int + 1);
            assert forall|i: int| 0 <= i < n implies is_transmitted(t1, i) == (is_transmitted(t0, i)
                || i == idx as int) by {
                if is_transmitted(t0, i) {
                    let j = choose|j: int| 0 <= j < t0.len() && t0[j] as int == i;
                    assert(t1[j] == t0[j]);
                }
                if i == idx as int {
                    assert(t1[k as int] == transmitted_indices@[k as int]);
                }
                if is_transmitted(t1, i) && i != idx as int {
                    let j = choose|j: int| 0 <= j < t1.len() && t1[j] as int == i;
                    assert(j < k);
                    assert(t0[j] == t1[j]);
                }
            }
        }
        k = k + 1;
    }
    assert(transmitted_indices@.take(m as int) =~= transmitted_indices@);
    assert(residue@ =~= residue_spec(accumulated_gradients@, transmitted_indices@, zero));
    proof {
        lemma_residue_banks_exactly_untransmitted(accumulated_gradients@, transmitted_indices@, zero);
    }
    residue
}

/// The residue resets every position named in the transmitted list (each
/// entry of the list, whatever its place in the list), and keeps the
/// accumulated value at every position the list does not name.
pub proof fn lemma_residue_banks_exactly_untransmitted<T>(accumulated: Seq<T>, transmitted: Seq<u32>, zero: T)
    requires
        forall|k: int| 0 <= k < transmitted.len() ==> (#[trigger] transmitted[k]) < accumulated.len(),
    ensures
        residue_spec(accumulated, transmitted, zero).len() == accumulated.len(),
        forall|j: int|
            0 <= j < transmitted.len() ==> residue_spec(accumulated, transmitted, zero)[#[trigger] transmitted[j] as int]
                == zero,
        forall|i: int|
            0 <= i < accumulated.len() && (forall|j: int|
                0 <= j < transmitted.len() ==> #[trigger] transmitted[j] as int != i)
                ==> residue_spec(accumulated, transmitted, zero)[i] == accumulated[i],
{
    let r = residue_spec(accumulated, transmitted, zero);
    assert forall|j: int| 0 <= j < transmitted.len() implies r[#[trigger] transmitted[j] as int] == zero by {
        let i = transmitted[j] as int;
        assert(0 <= i < accumulated.len());
        assert(transmitted[j] as int == i);
    }
}

/// Error feedback loses nothing: for an update built from `accumulated`
/// (`values[k] == accumulated[indices[k]]`) and the residue banked beside it,
/// every position either travels in the update and is banked as `zero`, or is
/// banked unchanged and does not travel.
pub proof fn lemma_error_feedback_lossless<T>(
    accumulated: Seq<T>,
    indices: Seq<u32>,
    values: Seq<T>,
    zero: T,
    i: int,
)
    requires
        0 <= i < accumulated.len(),
        values.len() == indices.len(),
        forall|k: int| 0 <= k < indices.len() ==> (#[trigger] indices[k]) < accumulated.len(),
        forall|k: int| 0 <= k < indices.len() ==> #[trigger] values[k] == accumulated[indices[k] as int],
    ensures
        residue_spec(accumulated, indices, zero).len() == accumulated.len(),
        is_transmitted(indices, i) ==> {
            &&& residue_spec(accumulated, indices, zero)[i] == zero
            &&& exists|k: int| 0 <= k < indices.len() && indices[k] as int == i && #[trigger] values[k] == accumulated[i]
        },
        !is_transmitted(indices, i) ==> residue_spec(accumulated, indices, zero)[i] == accumulated[i],
{
    if is_transmitted(indices, i) {
        let k = choose|k: int| 0 <= k < indices.len() && indices[k] as int == i;
        assert(values[k] == accumulated[i]);
    }
}

} // verus!
