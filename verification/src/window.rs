use vstd::prelude::*;
use std::collections::VecDeque;

verus! {

/// The contents of a buffer of vectors, each vector taken by its view.
pub open spec fn views_of<T>(s: Seq<Vec<T>>) -> Seq<Seq<T>> {
    Seq::new(s.len(), |i: int| s[i]@)
}

/// One step of the sliding window: when the buffer already holds
/// `window_size` (or more) vectors its oldest is evicted, then the new vector
/// is appended.
pub open spec fn slide<T>(buffer: Seq<Seq<T>>, new_vector: Seq<T>, window_size: nat) -> Seq<Seq<T>> {
    let kept = if buffer.len() >= window_size && buffer.len() > 0 {
        buffer.drop_first()
    } else {
        buffer
    };
    kept.push(new_vector)
}

/// The window that a stream of vectors leaves behind: its last
/// `window_size` vectors (all of them while fewer have arrived).
pub open spec fn window_after<T>(window_size: nat, history: Seq<Seq<T>>) -> Seq<Seq<T>> {
    if history.len() >= window_size {
        history.skip(history.len() - window_size)
    } else {
        history
    }
}

/// Copies a vector of `Copy` values element by element.
fn copy_vec<T: Copy>(v: &Vec<T>) -> (res: Vec<T>)
    ensures
        res@ == v@,
{
    let mut res: Vec<T> = Vec::new();
    let n = v.len();
    let mut i: usize = 0;
    while i < n
        invariant
            n == v@.len(),
            i <= n,
            res@ == v@.take(i as int),
        decreases n - i,
    {
        res.push(v[i]);
        i = i + 1;
    }
    assert(res@ =~= v@);
    res
}

/// A sliding window over the most recent flow feature vectors.
pub struct FlowSequenceWindow<T> {
    window_size: usize,
    buffer: VecDeque<Vec<T>>,
}

impl<T> FlowSequenceWindow<T> {
    /// The buffer never holds more than a complete window (one vector when
    /// the window size is zero).
    #[verifier::type_invariant]
    closed spec fn inv(&self) -> bool {
        self.buffer@.len() <= self.window_size || self.buffer@.len() <= 1
    }
}

impl<T: Copy> FlowSequenceWindow<T> {
    /// The number of vectors that make up a complete window.
    pub closed spec fn size(&self) -> nat {
        self.window_size as nat
    }

    /// The vectors currently held, oldest first.
    pub closed spec fn contents(&self) -> Seq<Seq<T>> {
        views_of(self.buffer@)
    }

    /// An empty window that completes once `window_size` vectors are held.
    pub fn new(window_size: usize) -> (w: Self)
        ensures
            w.size() == window_size,
            w.contents() == Seq::<Seq<T>>::empty(),
    {
        let buffer: VecDeque<Vec<T>> = VecDeque::new();
        let w = FlowSequenceWindow { window_size, buffer };
        assert(w.contents() =~= Seq::<Seq<T>>::empty());
        w
    }

    /// Pushes `new_vector` (evicting the oldest vector first when the window
    /// is already full) and returns a copy of the window, oldest first, when
    /// it holds exactly `window_size` vectors.
    pub fn eviction_engine(&mut self, new_vector: Vec<T>) -> (res: Option<Vec<Vec<T>>>)
        ensures
            final(self).size() == old(self).size(),
            final(self).contents() == slide(old(self).contents(), new_vector@, old(self).size()),
            res is Some <==> final(self).contents().len() == final(self).size(),
            res matches Some(win) ==> views_of(win@) == final(self).contents(),
            final(self).contents().len() <= final(self).size() || final(self).contents().len() == 1,
    {
        proof {
            use_type_invariant(&*self);
        }
        let ghost before = self.buffer@;
        let ghost nv = new_vector@;
        let mut buffer: VecDeque<Vec<T>> = VecDeque::new();
        std::mem::swap(&mut buffer, &mut self.buffer);
        if buffer.len() >= self.window_size {
            let _ = buffer.pop_front();
        }
        buffer.push_back(new_vector);
        self.buffer = buffer;
        proof {
            assert(views_of(self.buffer@) =~= slide(views_of(before), nv, self.window_size as nat));
        }
        if self.buffer.len() == self.window_size {
            let n = self.buffer.len();
            let mut win: Vec<Vec<T>> = Vec::new();
            let mut i: usize = 0;
            while i < n
                invariant
                    n == self.buffer@.len(),
                    i <= n,
                    win@.len() == i,
                    views_of(win@) == views_of(self.buffer@).take(i as int),
                decreases n - i,
            {
                let ghost prev = win@;
                let src: &Vec<T> = &self.buffer[i];
                assert(src@ == views_of(self.buffer@)[i as int]);
                let item = copy_vec(src);
                win.push(item);
                proof {
                    assert(win@ == prev.push(item));
                    assert(views_of(win@)[i as int] == item@);
                    assert(views_of(win@) =~= views_of(self.buffer@).take(i as int + 1));
                }
                i = i + 1;
            }
            assert(views_of(self.buffer@).take(n as int) =~= views_of(self.buffer@));
            Some(win)
        } else {
            None
        }
    }
}

/// Sliding the window keeps it equal to the last `window_size` vectors of
/// the stream pushed so far.
pub proof fn lemma_window_tracks_stream<T>(
    window_size: nat,
    history: Seq<Seq<T>>,
    new_vector: Seq<T>,
)
    requires
        window_size >= 1,
    ensures
        slide(window_after(window_size, history), new_vector, window_size) == window_after(
            window_size,
            history.push(new_vector),
        ),
{
    let w = window_after(window_size, history);
    let h2 = history.push(new_vector);
    if history.len() >= window_size {
        assert(w.drop_first().push(new_vector) =~= h2.skip(h2.len() - window_size));
    } else if history.len() + 1 == window_size {
        assert(w.push(new_vector) =~= h2.skip(h2.len() - window_size));
    } else {
        assert(w.push(new_vector) =~= h2);
    }
}

/// The training sequences cut from the first `m` flow vectors: one for every
/// complete window of `window_size` consecutive vectors, each the
/// concatenation of its vectors in arrival order.
pub open spec fn sequences_spec<T>(features: Seq<Seq<T>>, window_size: nat, m: nat) -> Seq<Seq<T>> {
    if window_size >= 1 && m >= window_size {
        Seq::new(
            (m - window_size + 1) as nat,
            |k: int| features.subrange(k, k + window_size).flatten(),
        )
    } else {
        Seq::empty()
    }
}

/// The label of each training sequence: the label of its newest vector.
pub open spec fn sequence_labels_spec<T>(labels: Seq<T>, window_size: nat, m: nat) -> Seq<T> {
    if window_size >= 1 && m >= window_size {
        Seq::new((m - window_size + 1) as nat, |k: int| labels[k + window_size - 1])
    } else {
        Seq::empty()
    }
}

/// Concatenates the vectors of a window, oldest first.
fn flatten_window<T: Copy>(win: &Vec<Vec<T>>) -> (flat: Vec<T>)
    ensures
        flat@ == views_of(win@).flatten(),
{
    let mut flat: Vec<T> = Vec::new();
    let n = win.len();
    let mut j: usize = 0;
    while j < n
        invariant
            n == win@.len(),
            j <= n,
            flat@ == views_of(win@).take(j as int).flatten_alt(),
        decreases n - j,
    {
        let part: &Vec<T> = &win[j];
        let ghost base = flat@;
        let m = part.len();
        let mut t: usize = 0;
        while t < m
            invariant
                m == part@.len(),
                t <= m,
                flat@ == base + part@.take(t as int),
            decreases m - t,
        {
            flat.push(part[t]);
            proof {
                assert(flat@ =~= base + part@.take(t as int + 1));
            }
            t = t + 1;
        }
        proof {
            let vs = views_of(win@);
            assert(vs.take(j as int + 1).drop_last() =~= vs.take(j as int));
            assert(part@.take(m as int) =~= part@);
            assert(vs.take(j as int + 1).last() == part@);
        }
        j = j + 1;
    }
    proof {
        let vs = views_of(win@);
        assert(vs.take(n as int) =~= vs);
        vs.lemma_flatten_and_flatten_alt_are_equivalent();
    }
    flat
}

/// The sliding-window loop behind `sequence_dataset`.
fn cut_sequences<T: Copy>(features: &Vec<Vec<T>>, labels: &Vec<T>, window_size: usize) -> (res: (Vec<Vec<T>>, Vec<T>))
    ensures
        ({
            let m = if features@.len() <= labels@.len() { features@.len() } else { labels@.len() };
            &&& views_of(res.0@) == sequences_spec(views_of(features@), window_size as nat, m)
            &&& res.1@ == sequence_labels_spec(labels@, window_size as nat, m)
        }),
{
    let m = if features.len() <= labels.len() { features.len() } else { labels.len() };
    let ghost fv = views_of(features@);
    let mut window: FlowSequenceWindow<T> = FlowSequenceWindow::new(window_size);
    let mut sequences: Vec<Vec<T>> = Vec::new();
    let mut sequence_labels: Vec<T> = Vec::new();
    let mut i: usize = 0;
    proof {
        assert(fv.take(0) =~= Seq::<Seq<T>>::empty());
        assert(views_of(sequences@) =~= sequences_spec(fv, window_size as nat, 0));
        assert(sequence_labels@ =~= sequence_labels_spec(labels@, window_size as nat, 0));
    }
    while i < m
        invariant
            m <= features@.len(),
            m <= labels@.len(),
            fv == views_of(features@),
            i <= m,
            window.size() == window_size,
            window_size >= 1 ==> window.contents() == window_after(window_size as nat, fv.take(i as int)),
            window_size == 0 ==> window.contents().len() <= 1,
            views_of(sequences@) == sequences_spec(fv, window_size as nat, i as nat),
            sequence_labels@ == sequence_labels_spec(labels@, window_size as nat, i as nat),
        decreases m - i,
    {
        let item = copy_vec(&features[i]);
        proof {
            if window_size >= 1 {
                lemma_window_tracks_stream(window_size as nat, fv.take(i as int), item@);
                assert(fv.take(i as int).push(item@) =~= fv.take(i as int + 1));
            }
        }
        let ghost seqs_before = views_of(sequences@);
        let out = window.eviction_engine(item);
        match out {
            Some(win) => {
                let flat = flatten_window(&win);
                let ghost seq_vec_before = sequences@;
                sequences.push(flat);
                sequence_labels.push(labels[i]);
                proof {
                    let w = window_size as nat;
                    let h = fv.take(i as int + 1);
                    assert(w >= 1);
                    assert(i + 1 >= w);
                    assert(views_of(win@) =~= fv.subrange(i + 1 - w, i + 1));
                    assert(sequences@ == seq_vec_before.push(flat));
                    assert(views_of(sequences@) =~= seqs_before.push(flat@));
                    assert(sequences_spec(fv, w, (i + 1) as nat) =~= sequences_spec(fv, w, i as nat).push(
                        fv.subrange(i + 1 - w, i + 1).flatten(),
                    ));
                    assert(views_of(sequences@) =~= sequences_spec(fv, w, (i + 1) as nat));
                    assert(sequence_labels@ =~= sequence_labels_spec(labels@, w, (i + 1) as nat));
                }
            },
            None => {
                proof {
                    let w = window_size as nat;
                    if w >= 1 {
                        assert(i + 1 < w);
                    }
                    assert(views_of(sequences@) =~= sequences_spec(fv, w, (i + 1) as nat));
                    assert(sequence_labels@ =~= sequence_labels_spec(labels@, w, (i + 1) as nat));
                }
            },
        }
        i = i + 1;
    }
    (sequences, sequence_labels)
}

/// Cuts flow feature vectors into training sequences: the vectors are pushed
/// through a sliding window of `window_size`, and every time the window is
/// complete its concatenation becomes a sequence, labelled with the label of
/// the vector that completed it.  Vectors and labels are paired in order;
/// surplus entries of the longer list are ignored.
pub fn sequence_dataset<T: Copy>(features: &Vec<Vec<T>>, labels: &Vec<T>, window_size: usize) -> (res: (Vec<Vec<T>>, Vec<T>))
    ensures
        ({
            let m = if features@.len() <= labels@.len() { features@.len() } else { labels@.len() };
            &&& views_of(res.0@) == sequences_spec(views_of(features@), window_size as nat, m)
            &&& res.1@ == sequence_labels_spec(labels@, window_size as nat, m)
            &&& res.0@.len() == res.1@.len()
            &&& res.1@.len() == if window_size >= 1 && m >= window_size { m - window_size + 1 } else { 0 }
            &&& forall|k: int| 0 <= k < res.1@.len() ==> #[trigger] res.1@[k] == labels@[k + window_size - 1]
            &&& forall|k: int|
                0 <= k < res.0@.len() ==> (#[trigger] res.0@[k])@ == views_of(features@).subrange(
                    k,
                    k + window_size,
                ).flatten()
        }),
{
    let m = if features.len() <= labels.len() { features.len() } else { labels.len() };
    let res = cut_sequences(features, labels, window_size);
    proof {
        let fv = views_of(features@);
        lemma_sequence_labels_newest(labels@, window_size as nat, m as nat);
        assert(views_of(res.0@).len() == res.0@.len());
        assert forall|k: int| 0 <= k < res.0@.len() implies (#[trigger] res.0@[k])@
            == fv.subrange(k, k + window_size).flatten() by {
            assert(views_of(res.0@)[k] == res.0@[k]@);
        }
    }
    res
}

/// Each sequence is labelled with the label of its newest vector (the one
/// that completed its window), and there is one label per complete window.
pub proof fn lemma_sequence_labels_newest<T>(labels: Seq<T>, window_size: nat, m: nat)
    requires
        m <= labels.len(),
    ensures
        sequence_labels_spec(labels, window_size, m).len() == if window_size >= 1 && m >= window_size {
            m - window_size + 1
        } else {
            0
        },
        forall|k: int|
            0 <= k < sequence_labels_spec(labels, window_size, m).len() ==> #[trigger] sequence_labels_spec(
                labels,
                window_size,
                m,
            )[k] == labels[k + window_size - 1],
{
}

/// Concatenating `n` vectors of `d` values each gives `n * d` values.
pub proof fn lemma_flatten_uniform_length<T>(s: Seq<Seq<T>>, d: nat)
    requires
        forall|i: int| 0 <= i < s.len() ==> (#[trigger] s[i]).len() == d,
    ensures
        s.flatten().len() == s.len() * d,
    decreases s.len(),
{
    if s.len() > 0 {
        let rest = s.drop_first();
        assert forall|i: int| 0 <= i < rest.len() implies (#[trigger] rest[i]).len() == d by {
            assert(rest[i] == s[i + 1]);
        }
        lemma_flatten_uniform_length(rest, d);
        assert(s.flatten().len() == d + rest.len() * d);
        assert(d + (s.len() - 1) * d == s.len() * d) by (nonlinear_arith);
    }
}

/// When every flow vector has `d` features, every training sequence has
/// `window_size * d` values, and there is one sequence per complete window.
pub proof fn lemma_sequence_shape<T>(features: Seq<Seq<T>>, window_size: nat, m: nat, d: nat)
    requires
        m <= features.len(),
        forall|i: int| 0 <= i < features.len() ==> (#[trigger] features[i]).len() == d,
    ensures
        sequences_spec(features, window_size, m).len() == if window_size >= 1 && m >= window_size {
            m - window_size + 1
        } else {
            0
        },
        forall|k: int|
            0 <= k < sequences_spec(features, window_size, m).len() ==> (#[trigger] sequences_spec(
                features,
                window_size,
                m,
            )[k]).len() == window_size * d,
{
    assert forall|k: int| 0 <= k < sequences_spec(features, window_size, m).len() implies (
    #[trigger] sequences_spec(features, window_size, m)[k]).len() == window_size * d by {
        let part = features.subrange(k, k + window_size);
        assert forall|i: int| 0 <= i < part.len() implies (#[trigger] part[i]).len() == d by {
            assert(part[i] == features[k + i]);
        }
        lemma_flatten_uniform_length(part, d);
    }
}

} // verus!
