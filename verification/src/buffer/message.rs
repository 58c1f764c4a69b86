use vstd::prelude::*;

verus! {

#[derive(Clone, Copy, PartialEq, Eq, Structural, Debug)]
pub struct NoteOn {
    pub pitch: u8,
    pub velocity: u8,
}

#[derive(Clone, Copy, PartialEq, Eq, Structural, Debug)]
pub struct NoteOff {
    pub pitch: u8,
}

#[derive(Clone, Copy, PartialEq, Eq, Structural, Debug)]
pub struct ControlChange {
    pub number: u8,
    pub value: u8,
}

#[derive(Clone, Copy, PartialEq, Eq, Structural, Debug)]
pub struct PitchBend {
    pub value: i16,
}

#[derive(Clone, Copy, PartialEq, Eq, Structural, Debug)]
pub enum MidiMessage {
    NoteOn(NoteOn),
    NoteOff(NoteOff),
    ControlChange(ControlChange),
    PitchBend(PitchBend),
}

/// A named continuous value.
#[derive(PartialEq, Debug)]
pub struct FloatMessage<T> {
    pub name: String,
    pub value: T,
}

/// A named choice.
#[derive(PartialEq, Eq, Debug)]
pub struct EnumMessage {
    pub name: String,
    pub value: usize,
}

#[derive(PartialEq, Debug)]
pub enum MessageValue<T> {
    Midi(MidiMessage),
    Float(FloatMessage<T>),
    Enum(EnumMessage),
}

/// A control message. `addr` is a routing path that is consumed from its
/// tail: the last segment names the destination at the current graph level.
#[derive(PartialEq, Debug)]
pub struct Message<T> {
    pub addr: Vec<String>,
    pub value: MessageValue<T>,
}

/// What a message is to a contract: its path as text, and its payload.
pub struct MessageView<T> {
    pub addr: Seq<Seq<char>>,
    pub value: MessageValue<T>,
}

/// The text of each segment of a path.
pub open spec fn path_view(addr: Seq<String>) -> Seq<Seq<char>> {
    Seq::new(addr.len(), |i: int| addr[i]@)
}

impl<T> View for Message<T> {
    type V = MessageView<T>;

    open spec fn view(&self) -> MessageView<T> {
        MessageView { addr: path_view(self.addr@), value: self.value }
    }
}

impl Clone for EnumMessage {
    fn clone(&self) -> (r: Self)
        ensures
            r == *self,
    {
        EnumMessage { name: self.name.clone(), value: self.value }
    }
}

impl<T: Copy> Clone for FloatMessage<T> {
    fn clone(&self) -> (r: Self)
        ensures
            r == *self,
    {
        FloatMessage { name: self.name.clone(), value: self.value }
    }
}

impl<T: Copy> Clone for MessageValue<T> {
    fn clone(&self) -> (r: Self)
        ensures
            r == *self,
    {
        match self {
            MessageValue::Midi(m) => MessageValue::Midi(*m),
            MessageValue::Float(f) => MessageValue::Float(f.clone()),
            MessageValue::Enum(e) => MessageValue::Enum(e.clone()),
        }
    }
}

/// Copies a path segment by segment.
pub fn clone_path(addr: &Vec<String>) -> (r: Vec<String>)
    ensures
        r@ == addr@,
{
    let mut out: Vec<String> = Vec::new();
    let mut i: usize = 0;
    while i < addr.len()
        invariant
            i <= addr.len(),
            out@ == addr@.subrange(0, i as int),
        decreases addr.len() - i,
    {
        out.push(addr[i].clone());
        assert(out@ =~= addr@.subrange(0, i + 1));
        i = i + 1;
    }
    assert(addr@.subrange(0, addr.len() as int) =~= addr@);
    out
}

impl<T: Copy> Clone for Message<T> {
    fn clone(&self) -> (r: Self)
        ensures
            r@ == self@,
            r.addr@ == self.addr@,
            r.value == self.value,
    {
        Message { addr: clone_path(&self.addr), value: self.value.clone() }
    }
}

/// What a timed message is to a contract: its frame offset and its view.
pub open spec fn entry_view<T>(e: (usize, Message<T>)) -> (usize, MessageView<T>) {
    (e.0, e.1@)
}

/// The views of a run of timed messages.
pub open spec fn entry_views<T>(s: Seq<(usize, Message<T>)>) -> Seq<(usize, MessageView<T>)> {
    Seq::new(s.len(), |i: int| entry_view(s[i]))
}

/// No entry has a later frame than an entry that follows it.
pub open spec fn sorted_by_frame<A>(s: Seq<(usize, A)>) -> bool {
    forall|i: int, j: int| 0 <= i <= j < s.len() ==> s[i].0 <= s[j].0
}

/// Every entry's frame lies in `[0, window)`.
pub open spec fn within_window<A>(s: Seq<(usize, A)>, window: int) -> bool {
    forall|i: int| 0 <= i < s.len() ==> (#[trigger] s[i]).0 < window
}

/// One past the last entry whose frame is `frame` or earlier; 0 where there is none.
pub open spec fn upper_bound<A>(s: Seq<(usize, A)>, frame: usize) -> int
    decreases s.len(),
{
    if s.len() == 0 {
        0
    } else if s.last().0 <= frame {
        s.len() as int
    } else {
        upper_bound(s.drop_last(), frame)
    }
}

/// In a sorted run, the one place that parts the entries at `frame` or
/// earlier from the later ones is the upper bound.
pub proof fn lemma_upper_bound_is_the_parting<A>(s: Seq<(usize, A)>, frame: usize, p: int)
    requires
        0 <= p <= s.len(),
        forall|i: int| 0 <= i < p ==> (#[trigger] s[i]).0 <= frame,
        forall|i: int| p <= i < s.len() ==> (#[trigger] s[i]).0 > frame,
    ensures
        upper_bound(s, frame) == p,
    decreases s.len(),
{
    if s.len() == 0 {
    } else if s.last().0 <= frame {
        assert(p == s.len()) by {
            if p < s.len() {
                assert(s[s.len() - 1].0 > frame);
            }
        }
    } else {
        assert(p < s.len()) by {
            if p == s.len() {
                assert(s[s.len() - 1].0 <= frame);
            }
        }
        let t = s.drop_last();
        assert forall|i: int| 0 <= i < p implies (#[trigger] t[i]).0 <= frame by {
            assert(t[i] == s[i]);
        }
        assert forall|i: int| p <= i < t.len() implies (#[trigger] t[i]).0 > frame by {
            assert(t[i] == s[i]);
        }
        lemma_upper_bound_is_the_parting(t, frame, p);
    }
}

/// The upper bound parts the entries: none before it is later than `frame`;
/// in a sorted run all from it on are.
pub proof fn lemma_upper_bound_parts<A>(s: Seq<(usize, A)>, frame: usize)
    ensures
        0 <= upper_bound(s, frame) <= s.len(),
        sorted_by_frame(s) ==> forall|i: int| 0 <= i < upper_bound(s, frame) ==> (#[trigger] s[i]).0 <= frame,
        forall|i: int| upper_bound(s, frame) <= i < s.len() ==> (#[trigger] s[i]).0 > frame,
    decreases s.len(),
{
    if s.len() == 0 {
    } else if s.last().0 <= frame {
        if sorted_by_frame(s) {
            assert forall|i: int| 0 <= i < s.len() implies (#[trigger] s[i]).0 <= frame by {
                assert(s[i].0 <= s[s.len() - 1].0);
            }
        }
    } else {
        let t = s.drop_last();
        lemma_upper_bound_parts(t, frame);
        if sorted_by_frame(s) {
            assert(sorted_by_frame(t)) by {
                assert forall|i: int, j: int| 0 <= i <= j < t.len() implies t[i].0 <= t[j].0 by {
                    assert(t[i] == s[i] && t[j] == s[j]);
                }
            }
            assert forall|i: int| 0 <= i < upper_bound(s, frame) implies (#[trigger] s[i]).0 <= frame by {
                assert(t[i] == s[i]);
            }
        }
        assert forall|i: int| upper_bound(s, frame) <= i < s.len() implies (#[trigger] s[i]).0 > frame by {
            if i < t.len() {
                assert(t[i] == s[i]);
            }
        }
    }
}

/// Inserting an entry at its upper bound keeps a sorted run sorted, and one
/// inside the window inside it.
pub proof fn lemma_insert_keeps_order<A>(s: Seq<(usize, A)>, frame: usize, a: A, window: int)
    requires
        sorted_by_frame(s),
    ensures
        sorted_by_frame(s.insert(upper_bound(s, frame), (frame, a))),
        within_window(s, window) && frame < window ==> within_window(
            s.insert(upper_bound(s, frame), (frame, a)),
            window,
        ),
{
    lemma_upper_bound_parts(s, frame);
    let p = upper_bound(s, frame);
    let t = s.insert(p, (frame, a));
    assert forall|i: int, j: int| 0 <= i <= j < t.len() implies t[i].0 <= t[j].0 by {
        if i < p {
            assert(t[i] == s[i]);
        } else if i > p {
            assert(t[i] == s[i - 1]);
        }
        if j < p {
            assert(t[j] == s[j]);
        } else if j > p {
            assert(t[j] == s[j - 1]);
        }
    }
    if within_window(s, window) && frame < window {
        assert forall|i: int| 0 <= i < t.len() implies (#[trigger] t[i]).0 < window by {
            if i < p {
                assert(t[i] == s[i]);
            } else if i > p {
                assert(t[i] == s[i - 1]);
            }
        }
    }
}

/// Stable insertion: in a sorted run, the place where a new entry at `frame`
/// goes lies after every entry at that frame or earlier and before every
/// later one, and the entries that were there keep their order around it.
pub proof fn law_insert_is_stable<A>(s: Seq<(usize, A)>, frame: usize, a: A)
    requires
        sorted_by_frame(s),
    ensures
        ({
            let p = upper_bound(s, frame);
            let t = s.insert(p, (frame, a));
            &&& 0 <= p <= s.len()
            &&& t[p] == (frame, a)
            &&& forall|i: int| 0 <= i < s.len() && (#[trigger] s[i]).0 <= frame ==> i < p && t[i] == s[i]
            &&& forall|i: int| 0 <= i < s.len() && (#[trigger] s[i]).0 > frame ==> p <= i && t[i + 1] == s[i]
            &&& sorted_by_frame(t)
        }),
{
    lemma_upper_bound_parts(s, frame);
    lemma_insert_keeps_order(s, frame, a, 0);
    let p = upper_bound(s, frame);
    assert forall|i: int| 0 <= i < s.len() && (#[trigger] s[i]).0 <= frame implies i < p by {
        if i >= p {
            assert(s[i].0 > frame);
        }
    }
    assert forall|i: int| 0 <= i < s.len() && (#[trigger] s[i]).0 > frame implies p <= i by {
        if i < p {
            assert(s[i].0 <= frame);
        }
    }
}

/// Of two entries added at one frame, the later comes right after the earlier.
pub proof fn law_same_frame_keeps_arrival_order<A>(s: Seq<(usize, A)>, frame: usize, first: A, second: A)
    requires
        sorted_by_frame(s),
    ensures
        ({
            let p = upper_bound(s, frame);
            let once = s.insert(p, (frame, first));
            let twice = once.insert(upper_bound(once, frame), (frame, second));
            &&& upper_bound(once, frame) == p + 1
            &&& twice[p] == (frame, first)
            &&& twice[p + 1] == (frame, second)
        }),
{
    lemma_upper_bound_parts(s, frame);
    let p = upper_bound(s, frame);
    let once = s.insert(p, (frame, first));
    assert forall|i: int| 0 <= i < p + 1 implies (#[trigger] once[i]).0 <= frame by {
        if i < p {
            assert(once[i] == s[i]);
        }
    }
    assert forall|i: int| p + 1 <= i < once.len() implies (#[trigger] once[i]).0 > frame by {
        assert(once[i] == s[i - 1]);
    }
    lemma_upper_bound_is_the_parting(once, frame, p + 1);
}

/// One past the last entry of a sorted run whose frame is `frame` or earlier.
pub fn slot_of<T>(entries: &Vec<(usize, Message<T>)>, frame: usize) -> (p: usize)
    requires
        sorted_by_frame(entries@),
    ensures
        p == upper_bound(entries@, frame),
        p <= entries@.len(),
{
    let mut lo: usize = 0;
    let mut hi: usize = entries.len();
    while lo < hi
        invariant
            lo <= hi <= entries@.len(),
            sorted_by_frame(entries@),
            forall|i: int| 0 <= i < lo ==> (#[trigger] entries@[i]).0 <= frame,
            forall|i: int| hi <= i < entries@.len() ==> (#[trigger] entries@[i]).0 > frame,
        decreases hi - lo,
    {
        let mid = lo + (hi - lo) / 2;
        if entries[mid].0 <= frame {
            assert forall|i: int| 0 <= i < mid + 1 implies (#[trigger] entries@[i]).0 <= frame by {
                assert(entries@[i].0 <= entries@[mid as int].0);
            }
            lo = mid + 1;
        } else {
            assert forall|i: int| mid <= i < entries@.len() implies (#[trigger] entries@[i]).0 > frame by {
                assert(entries@[mid as int].0 <= entries@[i].0);
            }
            hi = mid;
        }
    }
    proof {
        lemma_upper_bound_is_the_parting(entries@, frame, lo as int);
    }
    lo
}

/// The control messages of one block: timed messages in frame order, each
/// inside the block's window of frames. Messages of one frame keep the
/// order in which they were added.
///
/// The buffer lends out no mutable references to what it holds: a frame
/// written through one could break the order. A held message is changed with
/// `replace`, which keeps its frame and its place.
pub struct MessageBuffer<T> {
    entries: Vec<(usize, Message<T>)>,
    window: usize,
}

impl<T> MessageBuffer<T> {
    /// The timed messages, in order.
    pub closed spec fn items(&self) -> Seq<(usize, Message<T>)> {
        self.entries@
    }

    /// The number of frames of the block; every offset lies below it.
    pub closed spec fn window(&self) -> nat {
        self.window as nat
    }

    /// The messages are in frame order and inside the window.
    #[verifier::type_invariant]
    pub open spec fn wf(self) -> bool {
        &&& sorted_by_frame(self.items())
        &&& within_window(self.items(), self.window() as int)
    }
}

impl<T> View for MessageBuffer<T> {
    type V = Seq<(usize, MessageView<T>)>;

    open spec fn view(&self) -> Seq<(usize, MessageView<T>)> {
        entry_views(self.items())
    }
}

impl<T> MessageBuffer<T> {
    /// An empty buffer with an empty window.
    pub fn new() -> (b: Self)
        ensures
            b.items().len() == 0,
            b.window() == 0,
    {
        MessageBuffer { entries: Vec::new(), window: 0 }
    }

    /// An empty buffer for a block of `frames` frames.
    pub fn with_frames(frames: usize) -> (b: Self)
        ensures
            b.items().len() == 0,
            b.window() == frames,
    {
        MessageBuffer { entries: Vec::new(), window: frames }
    }

    /// A buffer that holds `entries` as they are.
    pub(crate) fn from_sorted(entries: Vec<(usize, Message<T>)>, frames: usize) -> (b: Self)
        requires
            sorted_by_frame(entries@),
            within_window(entries@, frames as int),
        ensures
            b.items() == entries@,
            b.window() == frames,
    {
        MessageBuffer { entries, window: frames }
    }

    pub fn len(&self) -> (n: usize)
        ensures
            n == self.items().len(),
    {
        self.entries.len()
    }

    pub fn is_empty(&self) -> (b: bool)
        ensures
            b == (self.items().len() == 0),
    {
        self.entries.len() == 0
    }

    /// The number of frames of the block.
    pub fn frame(&self) -> (frames: usize)
        ensures
            frames == self.window(),
    {
        self.window
    }

    /// Sets the number of frames of the block. Every message held must lie inside it.
    pub fn set_frames(&mut self, frames: usize)
        requires
            within_window(old(self).items(), frames as int),
        ensures
            final(self).items() == old(self).items(),
            final(self).window() == frames,
    {
        proof {
            use_type_invariant(&*self);
        }
        self.window = frames;
    }

    /// Adds a message at `frame`, after every message held at that frame or
    /// earlier and before every later one.
    pub fn add(&mut self, frame: usize, message: Message<T>)
        requires
            frame < old(self).window(),
        ensures
            final(self).items() == old(self).items().insert(
                upper_bound(old(self).items(), frame),
                (frame, message),
            ),
            final(self)@ == old(self)@.insert(upper_bound(old(self)@, frame), (frame, message@)),
            final(self).window() == old(self).window(),
    {
        proof {
            use_type_invariant(&*self);
            lemma_insert_keeps_order(self.entries@, frame, message, self.window as int);
            lemma_upper_bound_of_views(self.entries@, frame);
        }
        let index = slot_of(&self.entries, frame);
        let mut entries: Vec<(usize, Message<T>)> = Vec::new();
        core::mem::swap(&mut self.entries, &mut entries);
        entries.insert(index, (frame, message));
        core::mem::swap(&mut self.entries, &mut entries);
        assert(entry_views(self.entries@) =~= entry_views(old(self).entries@).insert(
            index as int,
            (frame, message@),
        ));
    }

    /// Puts `message` in the place of the `index`-th message, at that
    /// message's frame, and returns the message that was there. Where there
    /// is no such message the buffer stays as it is and `message` is returned.
    pub fn replace(&mut self, index: usize, message: Message<T>) -> (r: Result<Message<T>, Message<T>>)
        ensures
            final(self).window() == old(self).window(),
            index < old(self).items().len() ==> r == Ok::<Message<T>, Message<T>>(old(self).items()[index as int].1)
                && final(self).items() == old(self).items().update(
                index as int,
                (old(self).items()[index as int].0, message),
            ),
            index >= old(self).items().len() ==> r == Err::<Message<T>, Message<T>>(message) && final(self).items()
                == old(self).items(),
    {
        proof {
            use_type_invariant(&*self);
        }
        if index >= self.entries.len() {
            return Err(message);
        }
        let mut entries: Vec<(usize, Message<T>)> = Vec::new();
        core::mem::swap(&mut self.entries, &mut entries);
        let (frame, held) = entries.remove(index);
        entries.insert(index, (frame, message));
        proof {
            let before = old(self).entries@;
            assert(entries@ =~= before.update(index as int, (frame, message)));
            assert forall|i: int, j: int| 0 <= i <= j < entries@.len() implies entries@[i].0 <= entries@[j].0 by {
                assert(before[i].0 <= before[j].0);
            }
            assert forall|i: int| 0 <= i < entries@.len() implies (#[trigger] entries@[i]).0 < self.window by {
                assert(before[i].0 < self.window);
            }
        }
        core::mem::swap(&mut self.entries, &mut entries);
        Ok(held)
    }

    /// Drops every message. The window stays.
    pub fn clear(&mut self)
        ensures
            final(self).items().len() == 0,
            final(self).window() == old(self).window(),
    {
        let mut entries: Vec<(usize, Message<T>)> = Vec::new();
        core::mem::swap(&mut self.entries, &mut entries);
        entries.clear();
        core::mem::swap(&mut self.entries, &mut entries);
    }

    /// The `index`-th message with its frame, in frame order.
    pub fn get(&self, index: usize) -> (r: Option<(&usize, &Message<T>)>)
        ensures
            index < self.items().len() ==> r == Some((&self.items()[index as int].0, &self.items()[index as int].1)),
            index >= self.items().len() ==> r is None,
    {
        if index < self.entries.len() {
            let e = &self.entries[index];
            Some((&e.0, &e.1))
        } else {
            None
        }
    }

    /// An iterator over the messages with their frames, in frame order.
    pub fn iter(&self) -> (it: MessageBufferIter<'_, T>)
        ensures
            it.remaining() == self.items(),
    {
        let it = MessageBufferIter { entries: &self.entries, pos: 0 };
        assert(it.entries@.skip(0) =~= self.entries@);
        it
    }
}

/// The upper bound only looks at frames, so views have the same one.
pub proof fn lemma_upper_bound_of_views<T>(s: Seq<(usize, Message<T>)>, frame: usize)
    ensures
        upper_bound(entry_views(s), frame) == upper_bound(s, frame),
    decreases s.len(),
{
    if s.len() == 0 {
    } else if s.last().0 <= frame {
        assert(entry_views(s).last() == entry_view(s.last()));
    } else {
        assert(entry_views(s).last() == entry_view(s.last()));
        assert(entry_views(s).drop_last() =~= entry_views(s.drop_last()));
        lemma_upper_bound_of_views(s.drop_last(), frame);
    }
}

/// A cursor over the messages of a buffer.
pub struct MessageBufferIter<'a, T> {
    entries: &'a Vec<(usize, Message<T>)>,
    pos: usize,
}

impl<'a, T> MessageBufferIter<'a, T> {
    #[verifier::type_invariant]
    spec fn inside(self) -> bool {
        self.pos <= self.entries@.len()
    }

    /// The timed messages that are still to come, in order.
    pub closed spec fn remaining(&self) -> Seq<(usize, Message<T>)> {
        self.entries@.skip(self.pos as int)
    }

    /// The next message with its frame, or `None` once all were given.
    pub fn next(&mut self) -> (r: Option<(&'a usize, &'a Message<T>)>)
        ensures
            old(self).remaining().len() == 0 ==> r is None && final(self).remaining() == old(self).remaining(),
            old(self).remaining().len() > 0 ==> r == Some(
                (&old(self).remaining()[0].0, &old(self).remaining()[0].1),
            ) && final(self).remaining() == old(self).remaining().skip(1),
    {
        proof {
            use_type_invariant(&*self);
        }
        let entries: &'a Vec<(usize, Message<T>)> = self.entries;
        let i = self.pos;
        if i < entries.len() {
            self.pos = i + 1;
            assert(entries@.skip(i as int).skip(1) =~= entries@.skip(i + 1));
            let e = &entries[i];
            Some((&e.0, &e.1))
        } else {
            None
        }
    }

    /// How many messages are still to come, as a lower and an upper bound.
    pub fn size_hint(&self) -> (r: (usize, Option<usize>))
        ensures
            r.0 == self.remaining().len(),
            r.1 == Some(r.0),
    {
        proof {
            use_type_invariant(self);
        }
        let rest = self.entries.len() - self.pos;
        (rest, Some(rest))
    }
}

} // verus!
