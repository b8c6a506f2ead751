use vstd::prelude::*;

verus! {

// ---------------------------------------------------------------------------
// Scaling bounds for the integer columns of a flow record.
// ---------------------------------------------------------------------------

/// Largest value of `values`, or 0 when there is none.
pub open spec fn max_or_zero(values: Seq<u32>) -> u32
    decreases values.len(),
{
    if values.len() == 0 {
        0
    } else {
        let rest = max_or_zero(values.drop_last());
        if values.last() > rest {
            values.last()
        } else {
            rest
        }
    }
}

/// Running maxima of the packet-count columns of a flow dataset; every
/// record's count, divided by its bound, lands in `[0, 1]`.
pub struct PacketBounds {
    pub total_fwd_packets: u32,
    pub total_backward_packets: u32,
}

impl PacketBounds {
    /// Bounds before any record is seen: both zero.
    pub fn new() -> (b: Self)
        ensures
            b.total_fwd_packets == 0,
            b.total_backward_packets == 0,
    {
        PacketBounds { total_fwd_packets: 0, total_backward_packets: 0 }
    }

    /// Takes one record's forward and backward packet counts into account.
    pub fn observe(&mut self, fwd_packets: u32, bwd_packets: u32)
        ensures
            final(self).total_fwd_packets == if fwd_packets > old(self).total_fwd_packets {
                fwd_packets
            } else {
                old(self).total_fwd_packets
            },
            final(self).total_backward_packets == if bwd_packets > old(self).total_backward_packets {
                bwd_packets
            } else {
                old(self).total_backward_packets
            },
    {
        if fwd_packets > self.total_fwd_packets {
            self.total_fwd_packets = fwd_packets;
        }
        if bwd_packets > self.total_backward_packets {
            self.total_backward_packets = bwd_packets;
        }
    }
}

/// Observing a column record by record, starting from zero, leaves its
/// maximum (or zero for an empty column) as the bound.
pub proof fn lemma_running_max(values: Seq<u32>, next: u32)
    ensures
        max_or_zero(values.push(next)) == if next > max_or_zero(values) {
            next
        } else {
            max_or_zero(values)
        },
{
    assert(values.push(next).drop_last() =~= values);
}

/// The bound of a column is at least every value in it, so scaling by it
/// never exceeds one, and it is zero only when every value is zero.
pub proof fn lemma_max_bounds_column(values: Seq<u32>)
    ensures
        forall|i: int| 0 <= i < values.len() ==> #[trigger] values[i] <= max_or_zero(values),
        max_or_zero(values) == 0 || values.contains(max_or_zero(values)),
    decreases values.len(),
{
    if values.len() > 0 {
        let prev = values.drop_last();
        lemma_max_bounds_column(prev);
        assert forall|i: int| 0 <= i < values.len() implies #[trigger] values[i] <= max_or_zero(values) by {
            if i < values.len() - 1 {
                assert(values[i] == prev[i]);
            }
        }
        if max_or_zero(values) != 0 {
            if values.last() > max_or_zero(prev) {
                assert(values[values.len() - 1] == max_or_zero(values));
            } else {
                let j = choose|j: int| 0 <= j < prev.len() && prev[j] == max_or_zero(prev);
                assert(values[j] == prev[j]);
            }
        }
    }
}

// ---------------------------------------------------------------------------
// Labels: BENIGN traffic versus anything else.
// ---------------------------------------------------------------------------

/// What `str::to_uppercase` returns for a string (full Unicode case
/// mapping, which can change the length).
pub uninterp spec fn uppercase_of(s: Seq<char>) -> Seq<char>;

/// Unicode `White_Space` characters, the ones `str::trim` removes:
/// U+0009..U+000D, U+0020, U+0085, U+00A0, U+1680, U+2000..U+200A, U+2028,
/// U+2029, U+202F, U+205F and U+3000.
pub open spec fn is_white_space(c: char) -> bool {
    let u = c as u32;
    ||| 0x9 <= u <= 0xD
    ||| u == 0x20
    ||| u == 0x85
    ||| u == 0xA0
    ||| u == 0x1680
    ||| 0x2000 <= u <= 0x200A
    ||| u == 0x2028
    ||| u == 0x2029
    ||| u == 0x202F
    ||| u == 0x205F
    ||| u == 0x3000
}

/// The string without its leading white space.
pub open spec fn trim_start_of(s: Seq<char>) -> Seq<char>
    decreases s.len(),
{
    if s.len() > 0 && is_white_space(s[0]) {
        trim_start_of(s.drop_first())
    } else {
        s
    }
}

/// The string without its trailing white space.
pub open spec fn trim_end_of(s: Seq<char>) -> Seq<char>
    decreases s.len(),
{
    if s.len() > 0 && is_white_space(s.last()) {
        trim_end_of(s.drop_last())
    } else {
        s
    }
}

/// What `str::trim` returns for a string: the string without leading and
/// trailing Unicode white space.
pub open spec fn trimmed_of(s: Seq<char>) -> Seq<char> {
    trim_end_of(trim_start_of(s))
}

/// Calls `str::to_uppercase`; the result is named by `uppercase_of`, and
/// nothing more is claimed of it.
#[verifier::external_body]
fn to_uppercase(s: &str) -> (r: String)
    ensures
        r@ == uppercase_of(s@),
{
    s.to_uppercase()
}

/// Calls `str::trim`, which (as its documentation says) returns the string
/// with leading and trailing `White_Space` characters removed: `trimmed_of`.
#[verifier::external_body]
fn trim(s: &str) -> (r: &str)
    ensures
        r@ == trimmed_of(s@),
{
    s.trim()
}

/// Whether an already upper-cased, trimmed label reads exactly `BENIGN`.
pub fn is_benign_normalized(normalized: &str) -> (b: bool)
    ensures
        b == (normalized@ == "BENIGN"@),
{
    let mine: String = normalized.to_owned();
    let benign: String = "BENIGN".to_owned();
    mine == benign
}

/// Whether a flow record's label marks benign traffic: it reads `BENIGN`
/// once upper-cased and trimmed.  Every other label marks a threat.
pub fn is_benign_label(label: &str) -> (b: bool)
    ensures
        b == (trimmed_of(uppercase_of(label@)) == "BENIGN"@),
{
    let upper = to_uppercase(label);
    let normalized = trim(upper.as_str());
    is_benign_normalized(normalized)
}

} // verus!
