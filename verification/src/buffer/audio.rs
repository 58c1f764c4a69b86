use crate::sample::{is_silence, mixes_to, Sample};
use vstd::arithmetic::div_mod::{
    lemma_add_mod_noop, lemma_add_mod_noop_right, lemma_mod_bound, lemma_mod_sub_multiples_vanish, lemma_mod_twice,
    lemma_small_mod,
};
use vstd::prelude::*;

verus! {

/// Pairs up an interleaved sequence L, R, L, R, ... into frames.
pub open spec fn frames_of<T>(s: Seq<T>) -> Seq<(T, T)> {
    Seq::new((s.len() / 2) as nat, |i: int| (s[2 * i], s[2 * i + 1]))
}

/// The frames of two runs of whole frames laid end to end are the frames of
/// the first followed by the frames of the second.
pub proof fn lemma_frames_of_concat<T>(a: Seq<T>, b: Seq<T>)
    requires
        a.len() % 2 == 0,
    ensures
        frames_of(a + b) == frames_of(a) + frames_of(b),
{
    let whole = frames_of(a + b);
    let parts = frames_of(a) + frames_of(b);
    assert(whole.len() == parts.len());
    assert forall|i: int| 0 <= i < whole.len() implies whole[i] == parts[i] by {
        if i < frames_of(a).len() {
            assert((a + b)[2 * i] == a[2 * i]);
            assert((a + b)[2 * i + 1] == a[2 * i + 1]);
        } else {
            let j = i - frames_of(a).len();
            assert((a + b)[2 * i] == b[2 * j]);
            assert((a + b)[2 * i + 1] == b[2 * j + 1]);
        }
    }
    assert(whole =~= parts);
}

/// Where the `k`-th frame after `position` lies in a ring of `capacity` frames.
pub proof fn lemma_ring_index(position: int, k: int, capacity: int)
    requires
        0 <= position < capacity,
        0 <= k <= capacity,
    ensures
        (position + k) % capacity == if position + k < capacity {
            position + k
        } else {
            position + k - capacity
        },
{
    if position + k < capacity {
        lemma_small_mod((position + k) as nat, capacity as nat);
    } else {
        lemma_mod_sub_multiples_vanish(position + k, capacity);
        lemma_small_mod((position + k - capacity) as nat, capacity as nat);
    }
}

/// A fixed-length ring of stereo frames, stored interleaved, with a frame
/// cursor that marks where the next block starts.
pub struct AudioBuffer<T> {
    data: Vec<T>,
    cursor: usize,
}

impl<T: Copy> AudioBuffer<T> {
    /// The stored samples, interleaved, in storage order.
    pub closed spec fn samples(&self) -> Seq<T> {
        self.data@
    }

    /// The frame at which the next block starts.
    pub closed spec fn position(&self) -> nat {
        self.cursor as nat
    }

    /// The number of frames that the ring holds.
    pub open spec fn capacity(&self) -> nat {
        (self.samples().len() / 2) as nat
    }

    /// The ring holds whole frames, at least one, and the cursor lies inside it.
    pub open spec fn wf(&self) -> bool {
        &&& self.samples().len() % 2 == 0
        &&& 0 < self.capacity()
        &&& self.position() < self.capacity()
    }

    /// The frame stored at index `i` of the ring.
    pub open spec fn frame(&self, i: int) -> (T, T) {
        (self.samples()[2 * i], self.samples()[2 * i + 1])
    }

    /// The next `n` frames from the cursor on, wrapping at the end of the ring.
    pub open spec fn window(&self, n: nat) -> Seq<(T, T)> {
        Seq::new(n, |k: int| self.frame((self.position() + k) % (self.capacity() as int)))
    }

    /// How many of the next `n` frames lie before the end of the ring.
    pub open spec fn head_frames(&self, n: nat) -> nat {
        if self.position() + n <= self.capacity() {
            n
        } else {
            (self.capacity() - self.position()) as nat
        }
    }

    /// How many of the next `n` frames lie past the wrap, at the start of the ring.
    pub open spec fn tail_frames(&self, n: nat) -> nat {
        (n - self.head_frames(n)) as nat
    }

    /// Whether frame `i` of the ring is one of the next `n` frames.
    pub open spec fn in_window(&self, n: nat, i: int) -> bool {
        if self.position() + n <= self.capacity() {
            self.position() <= i < self.position() + n
        } else {
            self.position() <= i < self.capacity() || 0 <= i < self.position() + n - self.capacity()
        }
    }

    /// A ring without storage, to stand in a slot whose ring is lent out.
    pub(crate) fn hollow() -> (b: Self)
        ensures
            b.samples().len() == 0,
            b.position() == 0,
    {
        AudioBuffer { data: Vec::new(), cursor: 0 }
    }

    /// The number of frames that the ring holds.
    pub fn len(&self) -> (n: usize)
        ensures
            n == self.capacity(),
    {
        self.data.len() / 2
    }

    pub fn is_empty(&self) -> (b: bool)
        ensures
            b == (self.samples().len() == 0),
    {
        self.data.len() == 0
    }

    /// The frame at which the next block starts.
    pub fn cursor(&self) -> (c: usize)
        ensures
            c == self.position(),
    {
        self.cursor
    }

    /// Moves the cursor `frames` frames on, around the ring. No sample changes.
    pub fn forward(&mut self, frames: usize)
        requires
            old(self).wf(),
        ensures
            final(self).wf(),
            final(self).samples() == old(self).samples(),
            final(self).position() as int == (old(self).position() + frames) % (old(self).capacity() as int),
    {
        let cap = self.data.len() / 2;
        let step = frames % cap;
        proof {
            lemma_mod_bound(frames as int, cap as int);
            lemma_mod_bound((self.cursor + step) as int, cap as int);
            lemma_add_mod_noop_right(self.cursor as int, frames as int, cap as int);
        }
        self.cursor = (self.cursor + step) % cap;
    }

    /// A shared view of the next `frames` frames from the cursor on. It is one
    /// slice where the window ends before the end of the ring, two where it wraps.
    pub fn next_n_frames_ref(&self, frames: usize) -> (r: AudioBufferRef<'_, T>)
        requires
            self.wf(),
            frames <= self.capacity(),
        ensures
            r@ == self.window(frames as nat),
            r.head_frames() == self.head_frames(frames as nat),
            r.tail_frames() == self.tail_frames(frames as nat),
    {
        let cap = self.data.len() / 2;
        let whole = self.data.as_slice();
        if self.cursor + frames <= cap {
            let (_, from_cursor) = whole.split_at(self.cursor * 2);
            let (head, rest) = from_cursor.split_at(frames * 2);
            let (_, tail) = rest.split_at(rest.len());
            proof {
                let got = frames_of(head@ + tail@);
                let want = self.window(frames as nat);
                assert forall|k: int| 0 <= k < frames implies got[k] == want[k] by {
                    lemma_ring_index(self.cursor as int, k, cap as int);
                    assert((head@ + tail@)[2 * k] == self.data@[2 * (self.cursor + k)]);
                    assert((head@ + tail@)[2 * k + 1] == self.data@[2 * (self.cursor + k) + 1]);
                }
                assert(got =~= want);
            }
            AudioBufferRef { head, tail }
        } else {
            let past = self.cursor + frames - cap;
            let (before_cursor, head) = whole.split_at(self.cursor * 2);
            let (tail, _) = before_cursor.split_at(past * 2);
            proof {
                let got = frames_of(head@ + tail@);
                let want = self.window(frames as nat);
                assert forall|k: int| 0 <= k < frames implies got[k] == want[k] by {
                    lemma_ring_index(self.cursor as int, k, cap as int);
                    if self.cursor + k < cap {
                        assert((head@ + tail@)[2 * k] == self.data@[2 * (self.cursor + k)]);
                        assert((head@ + tail@)[2 * k + 1] == self.data@[2 * (self.cursor + k) + 1]);
                    } else {
                        assert((head@ + tail@)[2 * k] == self.data@[2 * (self.cursor + k - cap)]);
                        assert((head@ + tail@)[2 * k + 1] == self.data@[2 * (self.cursor + k - cap) + 1]);
                    }
                }
                assert(got =~= want);
            }
            AudioBufferRef { head, tail }
        }
    }
}

/// The storage of a ring of `cap` frames after the next `frames` frames from
/// frame `c` on were replaced: by `head` up to the end of the ring and by
/// `tail` from its start.
pub open spec fn spliced<T>(before: Seq<T>, c: int, frames: int, cap: int, head: Seq<T>, tail: Seq<T>) -> Seq<T> {
    if c + frames <= cap {
        before.subrange(0, 2 * c) + head + tail + before.subrange(2 * (c + frames), 2 * cap)
    } else {
        tail + before.subrange(2 * (c + frames - cap), 2 * c) + head
    }
}

/// `after` is `before` with the window of `frames` frames from frame `c` on
/// holding the frames of `head` followed by `tail`, and nothing else changed.
pub open spec fn window_written<T>(
    before: Seq<T>,
    after: Seq<T>,
    c: int,
    frames: int,
    cap: int,
    head: Seq<T>,
    tail: Seq<T>,
) -> bool {
    &&& after.len() == 2 * cap
    &&& forall|k: int|
        0 <= k < frames ==> {
            &&& after[2 * ((c + k) % cap)] == #[trigger] (head + tail)[2 * k]
            &&& after[2 * ((c + k) % cap) + 1] == (head + tail)[2 * k + 1]
        }
    &&& forall|i: int|
        0 <= i < cap && !(if c + frames <= cap {
            c <= i < c + frames
        } else {
            c <= i < cap || 0 <= i < c + frames - cap
        }) ==> #[trigger] after[2 * i] == before[2 * i] && after[2 * i + 1] == before[2 * i + 1]
}

/// Replacing a window by slices of the window's own shape writes exactly that window.
pub proof fn lemma_spliced<T>(before: Seq<T>, c: int, frames: int, cap: int, head: Seq<T>, tail: Seq<T>)
    requires
        before.len() == 2 * cap,
        0 <= c < cap,
        0 <= frames <= cap,
        c + frames <= cap ==> head.len() == 2 * frames && tail.len() == 0,
        c + frames > cap ==> head.len() == 2 * (cap - c) && tail.len() == 2 * (c + frames - cap),
    ensures
        window_written(before, spliced(before, c, frames, cap, head, tail), c, frames, cap, head, tail),
{
    let after = spliced(before, c, frames, cap, head, tail);
    assert forall|k: int| 0 <= k < frames implies {
        &&& after[2 * ((c + k) % cap)] == #[trigger] (head + tail)[2 * k]
        &&& after[2 * ((c + k) % cap) + 1] == (head + tail)[2 * k + 1]
    } by {
        lemma_ring_index(c, k, cap);
    }
}

impl<T: Copy> AudioBuffer<T> {
    /// An exclusive view of the next `frames` frames from the cursor on. It is
    /// one slice where the window ends before the end of the ring, two where
    /// it wraps. Once the view is given up, the window holds what the view
    /// ended up holding, and every other frame is as it was.
    pub fn next_n_frames_mut(&mut self, frames: usize) -> (r: AudioBufferMut<'_, T>)
        requires
            old(self).wf(),
            frames <= old(self).capacity(),
        ensures
            r.wf(),
            r@ == old(self).window(frames as nat),
            r.head@.len() == 2 * old(self).head_frames(frames as nat),
            r.tail@.len() == 2 * old(self).tail_frames(frames as nat),
            final(self).position() == old(self).position(),
            final(self).samples() == spliced(
                old(self).samples(),
                old(self).position() as int,
                frames as int,
                old(self).capacity() as int,
                final(r.head)@,
                final(r.tail)@,
            ),
            final(r.head)@.len() == r.head@.len() && final(r.tail)@.len() == r.tail@.len() ==> {
                &&& final(self).wf()
                &&& final(self).capacity() == old(self).capacity()
                &&& final(self).window(frames as nat) == frames_of(final(r.head)@ + final(r.tail)@)
                &&& forall|i: int|
                    0 <= i < old(self).capacity() && !old(self).in_window(frames as nat, i)
                        ==> #[trigger] final(self).frame(i) == old(self).frame(i)
            },
    {
        let cap = self.data.len() / 2;
        let c = self.cursor;
        let ghost before = self.data@;
        proof {
            assert forall|h: Seq<T>, t: Seq<T>|
                (c + frames <= cap ==> h.len() == 2 * frames && t.len() == 0) && (c + frames > cap ==> h.len() == 2
                    * (cap - c) && t.len() == 2 * (c + frames - cap)) implies window_written(
                before,
                #[trigger] spliced(before, c as int, frames as int, cap as int, h, t),
                c as int,
                frames as int,
                cap as int,
                h,
                t,
            ) by {
                lemma_spliced(before, c as int, frames as int, cap as int, h, t);
            }
        }
        let whole = self.data.as_mut_slice();
        if c + frames <= cap {
            let (pre, from_cursor) = whole.split_at_mut(c * 2);
            let (head, rest) = from_cursor.split_at_mut(frames * 2);
            let (tail, post) = rest.split_at_mut(0);
            proof {
                let got = frames_of(head@ + tail@);
                let want = old(self).window(frames as nat);
                assert forall|k: int| 0 <= k < frames implies got[k] == want[k] by {
                    lemma_ring_index(c as int, k, cap as int);
                    assert((head@ + tail@)[2 * k] == before[2 * (c + k)]);
                    assert((head@ + tail@)[2 * k + 1] == before[2 * (c + k) + 1]);
                }
                assert(got =~= want);
                assert(pre@ + (final(head)@ + (final(tail)@ + post@)) =~= spliced(
                    before,
                    c as int,
                    frames as int,
                    cap as int,
                    final(head)@,
                    final(tail)@,
                ));
            }
            AudioBufferMut { head, tail }
        } else {
            let past = c + frames - cap;
            let (before_cursor, head) = whole.split_at_mut(c * 2);
            let (tail, mid) = before_cursor.split_at_mut(past * 2);
            proof {
                let got = frames_of(head@ + tail@);
                let want = old(self).window(frames as nat);
                assert forall|k: int| 0 <= k < frames implies got[k] == want[k] by {
                    lemma_ring_index(c as int, k, cap as int);
                    if c + k < cap {
                        assert((head@ + tail@)[2 * k] == before[2 * (c + k)]);
                        assert((head@ + tail@)[2 * k + 1] == before[2 * (c + k) + 1]);
                    } else {
                        assert((head@ + tail@)[2 * k] == before[2 * (c + k - cap)]);
                        assert((head@ + tail@)[2 * k + 1] == before[2 * (c + k - cap) + 1]);
                    }
                }
                assert(got =~= want);
                assert((final(tail)@ + mid@) + final(head)@ =~= spliced(
                    before,
                    c as int,
                    frames as int,
                    cap as int,
                    final(head)@,
                    final(tail)@,
                ));
            }
            AudioBufferMut { head, tail }
        }
    }
}

/// Round trip: once the next `frames` frames of a ring were written through
/// an exclusive view, with `head` and `tail` what its two slices ended up
/// holding, a read of the next `frames` frames gives exactly what was
/// written, in order, and every frame outside the window is as it was.
pub proof fn law_write_then_read<T: Copy>(
    before: AudioBuffer<T>,
    after: AudioBuffer<T>,
    frames: nat,
    head: Seq<T>,
    tail: Seq<T>,
)
    requires
        before.wf(),
        frames <= before.capacity(),
        head.len() == 2 * before.head_frames(frames),
        tail.len() == 2 * before.tail_frames(frames),
        after.position() == before.position(),
        after.samples() == spliced(
            before.samples(),
            before.position() as int,
            frames as int,
            before.capacity() as int,
            head,
            tail,
        ),
    ensures
        after.wf(),
        after.capacity() == before.capacity(),
        after.window(frames) == frames_of(head + tail),
        forall|i: int|
            0 <= i < before.capacity() && !before.in_window(frames, i) ==> #[trigger] after.frame(i) == before.frame(i),
{
    lemma_spliced(
        before.samples(),
        before.position() as int,
        frames as int,
        before.capacity() as int,
        head,
        tail,
    );
    assert(after.window(frames) =~= frames_of(head + tail));
}

/// Successive blocks: the next `first` frames of a ring, followed by the next
/// `second` frames of the ring with its cursor moved `first` frames on, are
/// the ring's next `first + second` frames.
pub proof fn law_windows_follow_on<T: Copy>(ring: AudioBuffer<T>, moved: AudioBuffer<T>, first: nat, second: nat)
    requires
        ring.wf(),
        first + second <= ring.capacity(),
        moved.samples() == ring.samples(),
        moved.position() as int == ((ring.position() + first) as int) % (ring.capacity() as int),
    ensures
        ring.window(first) + moved.window(second) == ring.window(first + second),
{
    let cap = ring.capacity() as int;
    let whole = ring.window(first + second);
    let parts = ring.window(first) + moved.window(second);
    assert forall|k: int| 0 <= k < first + second implies parts[k] == whole[k] by {
        if k >= first {
            let j = k - first;
            lemma_add_mod_noop((ring.position() + first) as int, j, cap);
            lemma_mod_bound(j, cap);
            lemma_small_mod(j as nat, cap as nat);
            assert((moved.position() + j) % cap == (ring.position() + k) % cap) by {
                lemma_mod_twice((ring.position() + first) as int, cap);
            }
        }
    }
    assert(parts =~= whole);
}

/// `after` is `before` once the frames of `block` were written over its next
/// frames and its cursor was moved past them: the block lies where the
/// cursor of `before` stood, and every other frame is as it was.
pub open spec fn block_written<T: Copy>(before: AudioBuffer<T>, after: AudioBuffer<T>, block: Seq<(T, T)>) -> bool {
    &&& block.len() <= before.capacity()
    &&& after.samples().len() == before.samples().len()
    &&& after.position() as int == ((before.position() + block.len()) as int) % (before.capacity() as int)
    &&& forall|k: int|
        0 <= k < block.len() ==> after.frame((before.position() + k) % (before.capacity() as int)) == #[trigger] block[k]
    &&& forall|i: int|
        0 <= i < before.capacity() && !before.in_window(block.len(), i) ==> #[trigger] after.frame(i) == before.frame(
            i,
        )
}

/// One block: a ring whose next `frames` frames were written through an
/// exclusive view, with `head` and `tail` what its two slices ended up
/// holding, and whose cursor was then moved `frames` frames on, is the ring
/// with that block written.
pub proof fn law_write_then_forward<T: Copy>(
    before: AudioBuffer<T>,
    after: AudioBuffer<T>,
    frames: nat,
    head: Seq<T>,
    tail: Seq<T>,
)
    requires
        before.wf(),
        frames <= before.capacity(),
        head.len() == 2 * before.head_frames(frames),
        tail.len() == 2 * before.tail_frames(frames),
        after.position() as int == ((before.position() + frames) as int) % (before.capacity() as int),
        after.samples() == spliced(
            before.samples(),
            before.position() as int,
            frames as int,
            before.capacity() as int,
            head,
            tail,
        ),
    ensures
        block_written(before, after, frames_of(head + tail)),
{
    let cap = before.capacity() as int;
    let block = frames_of(head + tail);
    lemma_spliced(before.samples(), before.position() as int, frames as int, cap, head, tail);
    assert forall|k: int| 0 <= k < block.len() implies after.frame((before.position() + k) % cap) == #[trigger] block[k] by {
        lemma_ring_index(before.position() as int, k, cap);
    }
}

/// Round trip over any number of blocks. Blocks that together are no longer
/// than the ring are written one after the other, the cursor moving on past
/// each. Then the frames from where the cursor first stood are the blocks
/// laid end to end, and the cursor has moved on by their total length. Where
/// the blocks fill the ring, the cursor is back where it started, and a read
/// of the whole ring gives the blocks in the order they were written.
pub proof fn law_blocks_round_trip<T: Copy>(states: Seq<AudioBuffer<T>>, blocks: Seq<Seq<(T, T)>>)
    requires
        states.len() == blocks.len() + 1,
        states[0].wf(),
        forall|i: int| 0 <= i < blocks.len() ==> block_written(#[trigger] states[i], states[i + 1], blocks[i]),
        blocks.flatten().len() <= states[0].capacity(),
    ensures
        states.last().wf(),
        states.last().capacity() == states[0].capacity(),
        states.last().position() as int == ((states[0].position() + blocks.flatten().len()) as int) % (
        states[0].capacity() as int),
        forall|j: int|
            0 <= j < blocks.flatten().len() ==> states.last().frame(
                (states[0].position() + j) % (states[0].capacity() as int),
            ) == #[trigger] blocks.flatten()[j],
        blocks.flatten().len() == states[0].capacity() ==> states.last().position() == states[0].position()
            && states.last().window(states[0].capacity()) == blocks.flatten(),
    decreases blocks.len(),
{
    let cap = states[0].capacity() as int;
    let start = states[0].position() as int;
    let whole = blocks.flatten();
    blocks.lemma_flatten_and_flatten_alt_are_equivalent();
    if blocks.len() == 0 {
        lemma_small_mod(start as nat, cap as nat);
    } else {
        let n = blocks.len() - 1;
        let earlier = blocks.drop_last();
        let block = blocks.last();
        let before = states[n];
        let after = states[n + 1];
        let done = earlier.flatten().len() as int;
        earlier.lemma_flatten_and_flatten_alt_are_equivalent();
        assert(whole =~= earlier.flatten() + block);
        assert forall|i: int| 0 <= i < earlier.len() implies block_written(
            #[trigger] states.drop_last()[i],
            states.drop_last()[i + 1],
            earlier[i],
        ) by {
            assert(block_written(states[i], states[i + 1], blocks[i]));
        }
        law_blocks_round_trip(states.drop_last(), earlier);
        assert(states.drop_last().last() == before);
        assert(block_written(before, after, block));
        lemma_ring_index(start, done, cap);
        assert(after.position() as int == (start + whole.len()) % cap) by {
            lemma_add_mod_noop_right(block.len() as int, start + done, cap);
            assert(block.len() + (start + done) == start + whole.len());
            assert(block.len() + ((start + done) % cap) == before.position() + block.len());
        }
        assert forall|j: int| 0 <= j < whole.len() implies after.frame((start + j) % cap) == #[trigger] whole[j] by {
            lemma_ring_index(start, j, cap);
            if j < done {
                assert(before.frame((start + j) % cap) == earlier.flatten()[j]);
                assert(!before.in_window(block.len(), (start + j) % cap));
            } else {
                let k = j - done;
                assert(after.frame((before.position() + k) % cap) == block[k]);
                lemma_add_mod_noop_right(k, start + done, cap);
                assert(k + (start + done) == start + j);
                assert(k + ((start + done) % cap) == before.position() + k);
            }
        }
        if whole.len() == cap {
            lemma_ring_index(start, cap, cap);
            assert(after.window(cap as nat) =~= whole);
        }
    }
}

impl<T: Sample> AudioBuffer<T> {
    /// A silent ring of `len` frames with the cursor at its start.
    pub fn new(len: usize) -> (b: Self)
        requires
            0 < len,
            2 * len <= usize::MAX,
        ensures
            b.wf(),
            b.capacity() == len,
            b.position() == 0,
            forall|i: int| 0 <= i < 2 * len ==> is_silence(#[trigger] b.samples()[i]),
    {
        let mut data: Vec<T> = Vec::new();
        let total = 2 * len;
        let mut i: usize = 0;
        while i < total
            invariant
                i <= total,
                data@.len() == i,
                forall|j: int| 0 <= j < i ==> is_silence(#[trigger] data@[j]),
            decreases total - i,
        {
            data.push(T::silence());
            i = i + 1;
        }
        AudioBuffer { data, cursor: 0 }
    }
}

/// A shared view of a run of frames: `head` followed by `tail`, each a slice
/// of interleaved samples. `tail` is empty unless the run wraps.
pub struct AudioBufferRef<'a, T> {
    head: &'a [T],
    tail: &'a [T],
}

impl<'a, T> Clone for AudioBufferRef<'a, T> {
    fn clone(&self) -> (r: Self)
        ensures
            r == *self,
    {
        proof {
            use_type_invariant(self);
        }
        AudioBufferRef { head: self.head, tail: self.tail }
    }
}

impl<'a, T> Copy for AudioBufferRef<'a, T> {

}

impl<'a, T: Copy> View for AudioBufferRef<'a, T> {
    type V = Seq<(T, T)>;

    closed spec fn view(&self) -> Seq<(T, T)> {
        frames_of(self.head@ + self.tail@)
    }
}

impl<'a, T> AudioBufferRef<'a, T> {
    #[verifier::type_invariant]
    spec fn whole_frames(self) -> bool {
        self.head@.len() % 2 == 0 && self.tail@.len() % 2 == 0
    }
}

impl<'a, T: Copy> AudioBufferRef<'a, T> {
    /// The number of frames in the first slice.
    pub closed spec fn head_frames(&self) -> nat {
        (self.head@.len() / 2) as nat
    }

    /// The number of frames in the second slice.
    pub closed spec fn tail_frames(&self) -> nat {
        (self.tail@.len() / 2) as nat
    }

    /// A view of `head` followed by `tail`, each a run of whole frames.
    pub fn from_slices(head: &'a [T], tail: &'a [T]) -> (r: Option<Self>)
        ensures
            r is Some <==> head@.len() % 2 == 0 && tail@.len() % 2 == 0,
            r matches Some(v) ==> v@ == frames_of(head@ + tail@) && v.head_frames() == head@.len() / 2
                && v.tail_frames() == tail@.len() / 2,
    {
        if head.len() % 2 == 0 && tail.len() % 2 == 0 {
            Some(AudioBufferRef { head, tail })
        } else {
            None
        }
    }

    pub fn len(&self) -> (n: usize)
        ensures
            n == self@.len(),
            n == self.head_frames() + self.tail_frames(),
    {
        proof {
            use_type_invariant(self);
            lemma_frames_of_concat(self.head@, self.tail@);
        }
        self.head.len() / 2 + self.tail.len() / 2
    }

    pub fn is_empty(&self) -> (b: bool)
        ensures
            b == (self@.len() == 0),
    {
        proof {
            use_type_invariant(self);
            lemma_frames_of_concat(self.head@, self.tail@);
        }
        self.head.len() == 0 && self.tail.len() == 0
    }

    /// The `i`-th frame of the view.
    pub fn frame(&self, i: usize) -> (f: (T, T))
        requires
            i < self@.len(),
        ensures
            f == self@[i as int],
    {
        proof {
            use_type_invariant(self);
            lemma_frames_of_concat(self.head@, self.tail@);
        }
        let h = self.head.len() / 2;
        assert(self@.len() == frames_of(self.head@).len() + frames_of(self.tail@).len());
        if i < h {
            assert((self.head@ + self.tail@)[2 * i] == self.head@[2 * i]);
            assert((self.head@ + self.tail@)[2 * i + 1] == self.head@[2 * i + 1]);
            (self.head[2 * i], self.head[2 * i + 1])
        } else {
            let j = i - h;
            assert(frames_of(self.tail@).len() == self.tail@.len() / 2);
            assert(j < self.tail@.len() / 2);
            assert(2 * j + 1 < self.tail.len());
            assert((self.head@ + self.tail@)[2 * i] == self.tail@[2 * j]);
            assert((self.head@ + self.tail@)[2 * i + 1] == self.tail@[2 * j + 1]);
            (self.tail[2 * j], self.tail[2 * j + 1])
        }
    }

    /// An iterator over the frames of the view, in order.
    pub fn iter(&self) -> (it: AudioBufferIter<'a, T>)
        ensures
            it.remaining() == self@,
    {
        proof {
            use_type_invariant(self);
        }
        let it = AudioBufferIter { view: *self, pos: 0 };
        assert(it.view@.skip(0) =~= self@);
        it
    }

    /// Splits the view after its first `mid` frames. The two views, read one
    /// after the other, are the view that was split, wherever `mid` falls:
    /// inside the first slice, inside the second, or on the seam between them.
    pub fn split_at(&self, mid: usize) -> (r: (AudioBufferRef<'a, T>, AudioBufferRef<'a, T>))
        requires
            mid <= self@.len(),
        ensures
            r.0@ == self@.subrange(0, mid as int),
            r.1@ == self@.subrange(mid as int, self@.len() as int),
            r.0@ + r.1@ == self@,
    {
        proof {
            use_type_invariant(self);
            lemma_frames_of_concat(self.head@, self.tail@);
        }
        let h = self.head.len() / 2;
        let (_, empty) = self.tail.split_at(self.tail.len());
        let parts = if h < mid {
            let (l, r) = self.tail.split_at((mid - h) * 2);
            proof {
                lemma_frames_of_concat(self.head@, l@);
                lemma_frames_of_concat(l@, r@);
                assert(l@ + r@ =~= self.tail@);
                assert(r@ + empty@ =~= r@);
                assert(frames_of(self.head@) + frames_of(l@) =~= self@.subrange(0, mid as int));
                assert(frames_of(r@) =~= self@.subrange(mid as int, self@.len() as int));
            }
            (AudioBufferRef { head: self.head, tail: l }, AudioBufferRef { head: r, tail: empty })
        } else if h == mid {
            proof {
                assert(self.head@ + empty@ =~= self.head@);
                assert(self.tail@ + empty@ =~= self.tail@);
                assert(frames_of(self.head@) =~= self@.subrange(0, mid as int));
                assert(frames_of(self.tail@) =~= self@.subrange(mid as int, self@.len() as int));
            }
            (AudioBufferRef { head: self.head, tail: empty }, AudioBufferRef { head: self.tail, tail: empty })
        } else {
            let (l, r) = self.head.split_at(mid * 2);
            proof {
                lemma_frames_of_concat(l@, r@);
                lemma_frames_of_concat(r@, self.tail@);
                assert(l@ + r@ =~= self.head@);
                assert(l@ + empty@ =~= l@);
                assert(frames_of(l@) =~= self@.subrange(0, mid as int));
                assert(frames_of(r@) + frames_of(self.tail@) =~= self@.subrange(mid as int, self@.len() as int));
            }
            (AudioBufferRef { head: l, tail: empty }, AudioBufferRef { head: r, tail: self.tail })
        };
        assert(self@.subrange(0, mid as int) + self@.subrange(mid as int, self@.len() as int) =~= self@);
        parts
    }
}

/// A cursor over the frames of a shared view.
pub struct AudioBufferIter<'a, T> {
    view: AudioBufferRef<'a, T>,
    pos: usize,
}

impl<'a, T> AudioBufferIter<'a, T> {
    #[verifier::type_invariant]
    spec fn inside(self) -> bool {
        &&& self.view.head@.len() % 2 == 0
        &&& self.view.tail@.len() % 2 == 0
        &&& self.pos <= self.view.head@.len() / 2 + self.view.tail@.len() / 2
    }
}

impl<'a, T: Copy> AudioBufferIter<'a, T> {
    /// The frames that are still to come, in order.
    pub closed spec fn remaining(&self) -> Seq<(T, T)> {
        self.view@.skip(self.pos as int)
    }

    /// The next frame, left sample then right, or `None` once all were given.
    pub fn next(&mut self) -> (r: Option<(&'a T, &'a T)>)
        ensures
            old(self).remaining().len() == 0 ==> r is None && final(self).remaining() == old(self).remaining(),
            old(self).remaining().len() > 0 ==> r is Some && final(self).remaining() == old(self).remaining().skip(1),
            r matches Some(f) ==> (*f.0, *f.1) == old(self).remaining()[0],
    {
        proof {
            use_type_invariant(&*self);
            lemma_frames_of_concat(self.view.head@, self.view.tail@);
        }
        let head: &'a [T] = self.view.head;
        let tail: &'a [T] = self.view.tail;
        let h = head.len() / 2;
        let t = tail.len() / 2;
        let i = self.pos;
        assert(self.view@.len() == h + t);
        if i < h {
            assert((head@ + tail@)[2 * i] == head@[2 * i]);
            assert((head@ + tail@)[2 * i + 1] == head@[2 * i + 1]);
            self.pos = i + 1;
            assert(self.view@.skip(i as int).skip(1) =~= self.view@.skip(i + 1));
            Some((&head[2 * i], &head[2 * i + 1]))
        } else if i < h + t {
            let j = i - h;
            assert(2 * j + 1 < tail.len());
            assert((head@ + tail@)[2 * i] == tail@[2 * j]);
            assert((head@ + tail@)[2 * i + 1] == tail@[2 * j + 1]);
            self.pos = i + 1;
            assert(self.view@.skip(i as int).skip(1) =~= self.view@.skip(i + 1));
            Some((&tail[2 * j], &tail[2 * j + 1]))
        } else {
            None
        }
    }

    /// How many frames are still to come, as a lower and an upper bound.
    pub fn size_hint(&self) -> (r: (usize, Option<usize>))
        ensures
            r.0 == self.remaining().len(),
            r.1 == Some(r.0),
    {
        proof {
            use_type_invariant(self);
            lemma_frames_of_concat(self.view.head@, self.view.tail@);
        }
        let rest = self.view.head.len() / 2 + self.view.tail.len() / 2 - self.pos;
        (rest, Some(rest))
    }
}

/// An exclusive view of a run of frames: `head` followed by `tail`, each a
/// slice of interleaved samples. `tail` is empty unless the run wraps.
///
/// What the borrowed storage holds once the view is given up is
/// `final(head)` followed by `final(tail)`; the contracts below say how each
/// operation carries that on.
pub struct AudioBufferMut<'a, T> {
    pub head: &'a mut [T],
    pub tail: &'a mut [T],
}

impl<'a, T: Copy> View for AudioBufferMut<'a, T> {
    type V = Seq<(T, T)>;

    open spec fn view(&self) -> Seq<(T, T)> {
        frames_of(self.head@ + self.tail@)
    }
}

impl<'a, T: Copy> AudioBufferMut<'a, T> {
    /// Both slices hold whole frames.
    pub open spec fn wf(&self) -> bool {
        self.head@.len() % 2 == 0 && self.tail@.len() % 2 == 0
    }

    pub fn len(&self) -> (n: usize)
        requires
            self.wf(),
        ensures
            n == self@.len(),
    {
        proof {
            lemma_frames_of_concat(self.head@, self.tail@);
        }
        self.head.len() / 2 + self.tail.len() / 2
    }

    pub fn is_empty(&self) -> (b: bool)
        requires
            self.wf(),
        ensures
            b == (self@.len() == 0),
    {
        proof {
            lemma_frames_of_concat(self.head@, self.tail@);
        }
        self.head.len() == 0 && self.tail.len() == 0
    }

    /// The `i`-th frame of the view.
    pub fn frame(&self, i: usize) -> (f: (T, T))
        requires
            self.wf(),
            i < self@.len(),
        ensures
            f == self@[i as int],
    {
        proof {
            lemma_frames_of_concat(self.head@, self.tail@);
        }
        let h = self.head.len() / 2;
        assert(self@.len() == frames_of(self.head@).len() + frames_of(self.tail@).len());
        if i < h {
            assert((self.head@ + self.tail@)[2 * i] == self.head@[2 * i]);
            assert((self.head@ + self.tail@)[2 * i + 1] == self.head@[2 * i + 1]);
            (self.head[2 * i], self.head[2 * i + 1])
        } else {
            let j = i - h;
            assert(frames_of(self.tail@).len() == self.tail@.len() / 2);
            assert(2 * j + 1 < self.tail.len());
            assert((self.head@ + self.tail@)[2 * i] == self.tail@[2 * j]);
            assert((self.head@ + self.tail@)[2 * i + 1] == self.tail@[2 * j + 1]);
            (self.tail[2 * j], self.tail[2 * j + 1])
        }
    }

    /// Writes the `i`-th frame of the view.
    pub fn set_frame(&mut self, i: usize, left: T, right: T)
        requires
            old(self).wf(),
            i < old(self)@.len(),
        ensures
            final(self).wf(),
            final(self)@ == old(self)@.update(i as int, (left, right)),
            final(self).head@.len() == old(self).head@.len(),
            final(self).tail@.len() == old(self).tail@.len(),
            final(final(self).head)@ == final(old(self).head)@,
            final(final(self).tail)@ == final(old(self).tail)@,
    {
        proof {
            lemma_frames_of_concat(self.head@, self.tail@);
        }
        let h = self.head.len() / 2;
        assert(self@.len() == frames_of(self.head@).len() + frames_of(self.tail@).len());
        let ghost before = self.head@ + self.tail@;
        if i < h {
            self.head[2 * i] = left;
            self.head[2 * i + 1] = right;
        } else {
            let j = i - h;
            assert(frames_of(self.tail@).len() == self.tail@.len() / 2);
            assert(2 * j + 1 < self.tail.len());
            self.tail[2 * j] = left;
            self.tail[2 * j + 1] = right;
        }
        proof {
            let after = self.head@ + self.tail@;
            assert(after =~= before.update(2 * i, left).update(2 * i + 1, right));
            assert(frames_of(after) =~= frames_of(before).update(i as int, (left, right)));
        }
    }

    /// Splits the view after its first `mid` frames, wherever `mid` falls:
    /// inside the first slice, inside the second, or on the seam between them.
    /// The two views, read one after the other, are the view that was split;
    /// the storage behind it ends up holding what the two parts end up holding.
    pub fn split_at_mut(self, mid: usize) -> (r: (AudioBufferMut<'a, T>, AudioBufferMut<'a, T>))
        requires
            self.wf(),
            mid <= self@.len(),
        ensures
            r.0.wf(),
            r.1.wf(),
            r.0@ == self@.subrange(0, mid as int),
            r.1@ == self@.subrange(mid as int, self@.len() as int),
            r.0@ + r.1@ == self@,
            2 * mid <= old(self.head)@.len() ==> {
                &&& final(self.head)@ == final(r.0.head)@ + final(r.0.tail)@ + final(r.1.head)@
                &&& final(self.tail)@ == final(r.1.tail)@
                &&& old(self.head)@.len() == r.0.head@.len() + r.0.tail@.len() + r.1.head@.len()
                &&& old(self.tail)@.len() == r.1.tail@.len()
            },
            2 * mid > old(self.head)@.len() ==> {
                &&& final(self.head)@ == final(r.0.head)@
                &&& final(self.tail)@ == final(r.0.tail)@ + final(r.1.head)@ + final(r.1.tail)@
                &&& old(self.head)@.len() == r.0.head@.len()
                &&& old(self.tail)@.len() == r.0.tail@.len() + r.1.head@.len() + r.1.tail@.len()
            },
    {
        proof {
            lemma_frames_of_concat(self.head@, self.tail@);
        }
        let ghost whole = self@;
        let ghost head0 = self.head@;
        let ghost tail0 = self.tail@;
        let h = self.head.len() / 2;
        assert(whole.subrange(0, mid as int) + whole.subrange(mid as int, whole.len() as int) =~= whole);
        if h < mid {
            let t = self.tail.len();
            assert(whole.len() == h + t / 2);
            let (l, rest) = self.tail.split_at_mut((mid - h) * 2);
            let k = rest.len();
            let (r, empty) = rest.split_at_mut(k);
            proof {
                lemma_frames_of_concat(head0, l@);
                lemma_frames_of_concat(l@, r@);
                assert(l@ + r@ =~= tail0);
                assert(r@ + empty@ =~= r@);
                assert(frames_of(head0) + frames_of(l@) =~= whole.subrange(0, mid as int));
                assert(frames_of(r@) =~= whole.subrange(mid as int, whole.len() as int));
                assert(final(l)@ + (final(r)@ + final(empty)@) =~= final(l)@ + final(r)@ + final(empty)@);
            }
            (AudioBufferMut { head: self.head, tail: l }, AudioBufferMut { head: r, tail: empty })
        } else {
            let (first, r) = self.head.split_at_mut(mid * 2);
            let k = first.len();
            let (l, empty) = first.split_at_mut(k);
            proof {
                lemma_frames_of_concat(l@, r@);
                lemma_frames_of_concat(r@, tail0);
                assert(l@ + r@ =~= head0);
                assert(l@ + empty@ =~= l@);
                assert(frames_of(l@) =~= whole.subrange(0, mid as int));
                assert(frames_of(r@) + frames_of(tail0) =~= whole.subrange(mid as int, whole.len() as int));
            }
            (AudioBufferMut { head: l, tail: empty }, AudioBufferMut { head: r, tail: self.tail })
        }
    }

    /// Overwrites the leading frames of the view with those of `source`, as
    /// many as both have.
    pub fn copy_from(&mut self, source: &AudioBufferRef<'_, T>)
        requires
            old(self).wf(),
        ensures
            final(self).wf(),
            final(self)@.len() == old(self)@.len(),
            forall|k: int|
                0 <= k < old(self)@.len() ==> #[trigger] final(self)@[k] == if k < source@.len() {
                    source@[k]
                } else {
                    old(self)@[k]
                },
            final(self).head@.len() == old(self).head@.len(),
            final(self).tail@.len() == old(self).tail@.len(),
            final(final(self).head)@ == final(old(self).head)@,
            final(final(self).tail)@ == final(old(self).tail)@,
    {
        let mine = self.len();
        let theirs = source.len();
        let n = if mine < theirs { mine } else { theirs };
        let mut i: usize = 0;
        while i < n
            invariant
                self.wf(),
                i <= n,
                n <= source@.len(),
                n <= self@.len(),
                self@.len() == old(self)@.len(),
                forall|k: int|
                    0 <= k < self@.len() ==> #[trigger] self@[k] == if k < i {
                        source@[k]
                    } else {
                        old(self)@[k]
                    },
                self.head@.len() == old(self).head@.len(),
                self.tail@.len() == old(self).tail@.len(),
                final(self.head)@ == final(old(self).head)@,
                final(self.tail)@ == final(old(self).tail)@,
            decreases n - i,
        {
            let f = source.frame(i);
            self.set_frame(i, f.0, f.1);
            i = i + 1;
        }
    }
}

impl<'a, T: Sample> AudioBufferMut<'a, T> {
    /// Writes silence to every frame of the view.
    pub fn clear(&mut self)
        requires
            old(self).wf(),
        ensures
            final(self).wf(),
            final(self)@.len() == old(self)@.len(),
            forall|k: int|
                0 <= k < final(self)@.len() ==> is_silence((#[trigger] final(self)@[k]).0) && is_silence(
                    final(self)@[k].1,
                ),
            final(self).head@.len() == old(self).head@.len(),
            final(self).tail@.len() == old(self).tail@.len(),
            final(final(self).head)@ == final(old(self).head)@,
            final(final(self).tail)@ == final(old(self).tail)@,
    {
        let n = self.len();
        let mut i: usize = 0;
        while i < n
            invariant
                self.wf(),
                i <= n,
                self@.len() == n,
                n == old(self)@.len(),
                forall|k: int| 0 <= k < i ==> is_silence((#[trigger] self@[k]).0) && is_silence(self@[k].1),
                self.head@.len() == old(self).head@.len(),
                self.tail@.len() == old(self).tail@.len(),
                final(self.head)@ == final(old(self).head)@,
                final(self.tail)@ == final(old(self).tail)@,
            decreases n - i,
        {
            self.set_frame(i, T::silence(), T::silence());
            i = i + 1;
        }
    }

    /// Mixes the leading frames of `source` into those of the view, sample by
    /// sample, as many as both have.
    pub fn mix_from(&mut self, source: &AudioBufferRef<'_, T>)
        requires
            old(self).wf(),
        ensures
            final(self).wf(),
            final(self)@.len() == old(self)@.len(),
            forall|k: int|
                0 <= k < old(self)@.len() ==> if k < source@.len() {
                    &&& mixes_to(old(self)@[k].0, source@[k].0, (#[trigger] final(self)@[k]).0)
                    &&& mixes_to(old(self)@[k].1, source@[k].1, final(self)@[k].1)
                } else {
                    final(self)@[k] == old(self)@[k]
                },
            final(self).head@.len() == old(self).head@.len(),
            final(self).tail@.len() == old(self).tail@.len(),
            final(final(self).head)@ == final(old(self).head)@,
            final(final(self).tail)@ == final(old(self).tail)@,
    {
        let mine = self.len();
        let theirs = source.len();
        let n = if mine < theirs { mine } else { theirs };
        let mut i: usize = 0;
        while i < n
            invariant
                self.wf(),
                i <= n,
                n <= source@.len(),
                n <= self@.len(),
                self@.len() == old(self)@.len(),
                forall|k: int|
                    0 <= k < self@.len() ==> if k < i {
                        &&& mixes_to(old(self)@[k].0, source@[k].0, (#[trigger] self@[k]).0)
                        &&& mixes_to(old(self)@[k].1, source@[k].1, self@[k].1)
                    } else {
                        self@[k] == old(self)@[k]
                    },
                self.head@.len() == old(self).head@.len(),
                self.tail@.len() == old(self).tail@.len(),
                final(self.head)@ == final(old(self).head)@,
                final(self.tail)@ == final(old(self).tail)@,
            decreases n - i,
        {
            let mine = self.frame(i);
            let theirs = source.frame(i);
            self.set_frame(i, mine.0.mix(theirs.0), mine.1.mix(theirs.1));
            i = i + 1;
        }
    }
}

/// A cursor over the frames of an exclusive view. Each step lends out the two
/// samples of the next frame; `into_mut` gives the view back.
pub struct AudioBufferIterMut<'a, T> {
    pub view: AudioBufferMut<'a, T>,
    pub pos: usize,
}

impl<'a, T: Copy> AudioBufferMut<'a, T> {
    /// A cursor at the first frame of the view.
    pub fn into_iter(self) -> (it: AudioBufferIterMut<'a, T>)
        ensures
            it.view == self,
            it.pos == 0,
    {
        AudioBufferIterMut { view: self, pos: 0 }
    }
}

impl<'a, T: Copy> AudioBufferIterMut<'a, T> {
    /// The view holds whole frames and the cursor lies inside it.
    pub open spec fn wf(&self) -> bool {
        self.view.wf() && self.pos <= self.view@.len()
    }

    /// The view that the cursor runs over, with what was written through it.
    pub fn into_mut(self) -> (view: AudioBufferMut<'a, T>)
        ensures
            view == self.view,
    {
        self.view
    }

    /// How many frames are still to come, as a lower and an upper bound.
    pub fn size_hint(&self) -> (r: (usize, Option<usize>))
        requires
            self.wf(),
        ensures
            r.0 == self.view@.len() - self.pos,
            r.1 == Some(r.0),
    {
        let rest = self.view.len() - self.pos;
        (rest, Some(rest))
    }

    /// The left and the right sample of the next frame, to read and to write,
    /// or `None` once every frame was lent out.
    pub fn next(&mut self) -> (r: Option<(&mut T, &mut T)>)
        requires
            old(self).wf(),
        ensures
            final(self).wf(),
            final(self).view.head@.len() == old(self).view.head@.len(),
            final(self).view.tail@.len() == old(self).view.tail@.len(),
            final(final(self).view.head)@ == final(old(self).view.head)@,
            final(final(self).view.tail)@ == final(old(self).view.tail)@,
            old(self).pos >= old(self).view@.len() ==> r is None && final(self).pos == old(self).pos
                && final(self).view@ == old(self).view@,
            old(self).pos < old(self).view@.len() ==> {
                &&& r matches Some(pair) && (*pair.0, *pair.1) == old(self).view@[old(self).pos as int]
                    && final(self).view@ == old(self).view@.update(
                    old(self).pos as int,
                    (*final(pair.0), *final(pair.1)),
                )
                &&& final(self).pos == old(self).pos + 1
            },
    {
        proof {
            lemma_frames_of_concat(self.view.head@, self.view.tail@);
        }
        let i = self.pos;
        let h = self.view.head.len() / 2;
        let t = self.view.tail.len() / 2;
        let ghost head0 = self.view.head@;
        let ghost tail0 = self.view.tail@;
        assert(self.view@.len() == h + t);
        if i < h {
            self.pos = i + 1;
            let (_, rest) = self.view.head.split_at_mut(2 * i);
            let (pair, _) = rest.split_at_mut(2);
            let (l, r) = pair.split_at_mut(1);
            let ghost l0 = l@;
            let ghost r0 = r@;
            match (l.first_mut(), r.first_mut()) {
                (Some(a), Some(b)) => {
                    proof {
                        assert((head0 + tail0)[2 * i] == head0[2 * i]);
                        assert((head0 + tail0)[2 * i + 1] == head0[2 * i + 1]);
                        let now = head0.update(2 * i, *final(a)).update(2 * i + 1, *final(b));
                        assert(head0.subrange(0, 2 * i) + ((l0.update(0, *final(a)) + r0.update(0, *final(b)))
                            + head0.subrange(2 * i + 2, head0.len() as int)) =~= now);
                        assert(frames_of(now + tail0) =~= frames_of(head0 + tail0).update(
                            i as int,
                            (*final(a), *final(b)),
                        ));
                    }
                    Some((a, b))
                },
                _ => None,
            }
        } else if i < h + t {
            let j = i - h;
            self.pos = i + 1;
            let (_, rest) = self.view.tail.split_at_mut(2 * j);
            let (pair, _) = rest.split_at_mut(2);
            let (l, r) = pair.split_at_mut(1);
            let ghost l0 = l@;
            let ghost r0 = r@;
            match (l.first_mut(), r.first_mut()) {
                (Some(a), Some(b)) => {
                    proof {
                        assert((head0 + tail0)[2 * i] == tail0[2 * j]);
                        assert((head0 + tail0)[2 * i + 1] == tail0[2 * j + 1]);
                        let now = tail0.update(2 * j, *final(a)).update(2 * j + 1, *final(b));
                        assert(tail0.subrange(0, 2 * j) + ((l0.update(0, *final(a)) + r0.update(0, *final(b)))
                            + tail0.subrange(2 * j + 2, tail0.len() as int)) =~= now);
                        assert(frames_of(head0 + now) =~= frames_of(head0 + tail0).update(
                            i as int,
                            (*final(a), *final(b)),
                        ));
                    }
                    Some((a, b))
                },
                _ => None,
            }
        } else {
            None
        }
    }
}

} // verus!
