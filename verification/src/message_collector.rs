use crate::buffer::message::{
    clone_path, entry_views, lemma_insert_keeps_order, lemma_upper_bound_of_views, lemma_upper_bound_parts, path_view,
    slot_of, sorted_by_frame, upper_bound, Message, MessageBuffer, MessageView,
};
use std::sync::mpsc::{Receiver, Sender};
use vstd::prelude::*;

verus! {

/// The receiving end of a channel of the standard library. Nothing is known
/// of what it holds: that is up to the threads that send.
#[verifier::external_type_specification]
#[verifier::external_body]
#[verifier::reject_recursive_types(T)]
pub struct ExReceiver<T>(std::sync::mpsc::Receiver<T>);

/// The sending end of a channel of the standard library.
#[verifier::external_type_specification]
#[verifier::external_body]
#[verifier::reject_recursive_types(T)]
pub struct ExSender<T>(std::sync::mpsc::Sender<T>);

/// Calls `std::sync::mpsc::channel`, which makes a new channel and returns
/// its two ends. Nothing is claimed of them.
#[verifier::external_body]
fn open_channel<T>() -> (ends: (Sender<(usize, Message<T>)>, Receiver<(usize, Message<T>)>)) {
    std::sync::mpsc::channel()
}

/// Calls `Receiver::try_recv`, which returns at once: a message that was
/// waiting, or an error where none is or where every sender is gone. Either
/// error is given as `None`. Nothing is claimed of the message.
#[verifier::external_body]
fn try_receive<T>(rx: &Receiver<(usize, Message<T>)>) -> (got: Option<(usize, Message<T>)>) {
    rx.try_recv().ok()
}

/// A producer's end of the collector: the path that its messages are filed
/// under, and the channel they arrive on.
#[verifier::reject_recursive_types(T)]
pub struct Port<T> {
    addr: Vec<String>,
    rx: Receiver<(usize, Message<T>)>,
}

/// Brings the control messages of any number of producer threads to the one
/// thread that processes audio, and hands them out block by block, each at
/// its frame inside the block.
#[verifier::reject_recursive_types(T)]
pub struct MessageCollector<T> {
    team: Vec<(usize, Message<T>)>,
    curr: usize,
    ports: Vec<Port<T>>,
}

/// The timed message as the collector files it: under the path of its port.
pub open spec fn filed<T>(path: Seq<Seq<char>>, frame: usize, message: MessageView<T>) -> (usize, MessageView<T>) {
    (frame, MessageView { addr: path + message.addr, value: message.value })
}

/// One arrival: the index of the port it came through, its frame, and the message.
pub struct Arrival<T> {
    pub port: int,
    pub frame: usize,
    pub message: MessageView<T>,
}

/// The backlog after the arrivals were filed one by one, in order, each
/// after every message then held at its frame or earlier.
pub open spec fn filed_all<T>(
    backlog: Seq<(usize, MessageView<T>)>,
    paths: Seq<Seq<Seq<char>>>,
    arrivals: Seq<Arrival<T>>,
) -> Seq<(usize, MessageView<T>)>
    decreases arrivals.len(),
{
    if arrivals.len() == 0 {
        backlog
    } else {
        let sofar = filed_all(backlog, paths, arrivals.drop_last());
        let a = arrivals.last();
        sofar.insert(upper_bound(sofar, a.frame), filed(paths[a.port], a.frame, a.message))
    }
}

/// The arrivals came through ports of the collector, port after port: none
/// came through an earlier port than one before it.
pub open spec fn ports_in_turn<T>(arrivals: Seq<Arrival<T>>, ports: int) -> bool {
    &&& forall|i: int| 0 <= i < arrivals.len() ==> 0 <= (#[trigger] arrivals[i]).port < ports
    &&& forall|i: int, j: int| 0 <= i <= j < arrivals.len() ==> arrivals[i].port <= arrivals[j].port
}

/// How many messages of a sorted backlog are due in the block of `frames`
/// frames that starts at frame `start`: those before the block's end. An
/// empty block has no frame to put a message at, so nothing is due in it.
pub open spec fn due_count<A>(backlog: Seq<(usize, A)>, start: int, frames: int) -> int {
    if frames <= 0 {
        0
    } else {
        upper_bound(backlog, (start + frames - 1) as usize)
    }
}

/// A timed message at its offset in the block that starts at frame `start`:
/// a message from before the block is put at the block's first frame.
pub open spec fn rebased<A>(e: (usize, A), start: int) -> (usize, A) {
    (
        if e.0 <= start {
            0usize
        } else {
            (e.0 - start) as usize
        },
        e.1,
    )
}

/// Each timed message at its offset in the block that starts at frame `start`.
pub open spec fn rebased_all<A>(s: Seq<(usize, A)>, start: int) -> Seq<(usize, A)> {
    Seq::new(s.len(), |i: int| rebased(s[i], start))
}

/// Whether two paths read the same, segment by segment.
pub fn same_path(a: &Vec<String>, b: &Vec<String>) -> (same: bool)
    ensures
        same == (path_view(a@) == path_view(b@)),
{
    if a.len() != b.len() {
        assert(path_view(a@).len() != path_view(b@).len());
        return false;
    }
    let mut i: usize = 0;
    while i < a.len()
        invariant
            i <= a@.len(),
            a@.len() == b@.len(),
            forall|k: int| 0 <= k < i ==> (#[trigger] a@[k])@ == b@[k]@,
        decreases a.len() - i,
    {
        if a[i] != b[i] {
            assert(path_view(a@)[i as int] != path_view(b@)[i as int]);
            return false;
        }
        i = i + 1;
    }
    assert(path_view(a@) =~= path_view(b@));
    true
}

impl<T> MessageCollector<T> {
    /// The messages that wait to be handed out, in frame order.
    pub closed spec fn backlog(&self) -> Seq<(usize, Message<T>)> {
        self.team@
    }

    /// The number of frames handed out so far.
    pub closed spec fn consumed(&self) -> nat {
        self.curr as nat
    }

    /// The path of each port, in the order of registration.
    pub closed spec fn paths(&self) -> Seq<Seq<Seq<char>>> {
        Seq::new(self.ports@.len(), |i: int| path_view(self.ports@[i].addr@))
    }

    /// The backlog is in frame order.
    #[verifier::type_invariant]
    pub open spec fn wf(self) -> bool {
        sorted_by_frame(self.backlog())
    }

    /// A collector without ports, with nothing waiting, at frame 0.
    pub fn new() -> (c: Self)
        ensures
            c.backlog().len() == 0,
            c.consumed() == 0,
            c.paths().len() == 0,
    {
        MessageCollector { team: Vec::new(), curr: 0, ports: Vec::new() }
    }

    /// The number of frames handed out so far.
    pub fn consumed_frames(&self) -> (n: usize)
        ensures
            n == self.consumed(),
    {
        self.curr
    }

    /// The number of messages that wait to be handed out.
    pub fn waiting(&self) -> (n: usize)
        ensures
            n == self.backlog().len(),
    {
        self.team.len()
    }

    /// Whether a port is registered under `addr`.
    pub fn has_port(&self, addr: &Vec<String>) -> (found: bool)
        ensures
            found == self.paths().contains(path_view(addr@)),
    {
        let mut i: usize = 0;
        while i < self.ports.len()
            invariant
                i <= self.ports@.len(),
                forall|k: int| 0 <= k < i ==> self.paths()[k] != path_view(addr@),
            decreases self.ports.len() - i,
        {
            if same_path(&self.ports[i].addr, addr) {
                assert(self.paths()[i as int] == path_view(addr@));
                return true;
            }
            i = i + 1;
        }
        false
    }

    /// Registers a port under `addr` and returns the handle that a producer
    /// sends through. No port may be registered under `addr` yet: `has_port`
    /// tells.
    pub fn add_port(&mut self, addr: Vec<String>) -> (handle: Sender<(usize, Message<T>)>)
        requires
            !old(self).paths().contains(path_view(addr@)),
        ensures
            final(self).paths() == old(self).paths().push(path_view(addr@)),
            final(self).backlog() == old(self).backlog(),
            final(self).consumed() == old(self).consumed(),
    {
        proof {
            use_type_invariant(&*self);
        }
        let (tx, rx) = open_channel();
        let ghost before = self.paths();
        let mut ports: Vec<Port<T>> = Vec::new();
        core::mem::swap(&mut self.ports, &mut ports);
        ports.push(Port { addr, rx });
        core::mem::swap(&mut self.ports, &mut ports);
        assert(self.paths() =~= before.push(path_view(addr@)));
        tx
    }
}

impl<T: Copy> MessageCollector<T> {
    /// Files one arrival of port `port`: the port's path is put in front of
    /// the message's own, and the message goes into the backlog after every
    /// message held at `frame` or earlier.
    pub fn enqueue(&mut self, port: usize, frame: usize, message: Message<T>)
        requires
            port < old(self).paths().len(),
        ensures
            entry_views(final(self).backlog()) == entry_views(old(self).backlog()).insert(
                upper_bound(entry_views(old(self).backlog()), frame),
                filed(old(self).paths()[port as int], frame, message@),
            ),
            final(self).backlog().len() == old(self).backlog().len() + 1,
            final(self).consumed() == old(self).consumed(),
            final(self).paths() == old(self).paths(),
    {
        proof {
            use_type_invariant(&*self);
        }
        let mut addr = clone_path(&self.ports[port].addr);
        let mut message = message;
        let ghost inner = message.addr@;
        addr.append(&mut message.addr);
        message.addr = addr;
        assert(message@.addr =~= path_view(self.ports@[port as int].addr@) + path_view(inner));
        let index = slot_of(&self.team, frame);
        proof {
            lemma_insert_keeps_order(self.team@, frame, message, 0);
            lemma_upper_bound_of_views(self.team@, frame);
        }
        let mut team: Vec<(usize, Message<T>)> = Vec::new();
        core::mem::swap(&mut self.team, &mut team);
        team.insert(index, (frame, message));
        core::mem::swap(&mut self.team, &mut team);
        assert(entry_views(self.team@) =~= entry_views(old(self).team@).insert(index as int, (frame, message@)));
    }

    /// Takes the messages that wait on the ports, port by port in the order
    /// of registration and each port's in the order they were sent, and files
    /// each as `enqueue` does. Whatever arrived, the backlog afterwards is the
    /// backlog before with those arrivals filed in the order they were taken.
    /// A port is left once nothing waits on it.
    pub fn collect(&mut self)
        ensures
            exists|arrivals: Seq<Arrival<T>>|
                ports_in_turn(arrivals, old(self).paths().len() as int) && #[trigger] filed_all(
                    entry_views(old(self).backlog()),
                    old(self).paths(),
                    arrivals,
                ) == entry_views(final(self).backlog()),
            final(self).consumed() == old(self).consumed(),
            final(self).paths() == old(self).paths(),
    {
        let ghost mut arrivals: Seq<Arrival<T>> = Seq::empty();
        let ghost start = entry_views(self.backlog());
        let ghost paths = self.paths();
        let mut p: usize = 0;
        while p < self.ports.len()
            invariant
                p <= self.paths().len(),
                self.paths() == paths,
                paths == old(self).paths(),
                start == entry_views(old(self).backlog()),
                self.consumed() == old(self).consumed(),
                filed_all(start, paths, arrivals) == entry_views(self.backlog()),
                ports_in_turn(arrivals, paths.len() as int),
                forall|i: int| 0 <= i < arrivals.len() ==> (#[trigger] arrivals[i]).port < p,
            decreases self.ports.len() - p,
        {
            while self.team.len() < usize::MAX
                invariant
                    p < self.paths().len(),
                    self.paths() == paths,
                    paths == old(self).paths(),
                    start == entry_views(old(self).backlog()),
                    self.consumed() == old(self).consumed(),
                    filed_all(start, paths, arrivals) == entry_views(self.backlog()),
                    ports_in_turn(arrivals, paths.len() as int),
                    forall|i: int| 0 <= i < arrivals.len() ==> (#[trigger] arrivals[i]).port <= p,
                decreases usize::MAX - self.team.len(),
            {
                match try_receive(&self.ports[p].rx) {
                    Some((frame, message)) => {
                        proof {
                            let a = Arrival { port: p as int, frame, message: message@ };
                            assert(arrivals.push(a).drop_last() =~= arrivals);
                            arrivals = arrivals.push(a);
                        }
                        self.enqueue(p, frame, message);
                    },
                    None => {
                        break ;
                    },
                }
            }
            p = p + 1;
        }
    }

    /// Hands out the next block of `frames` frames: every message that waits
    /// with a frame before the block's end leaves the backlog, in order, at
    /// its offset from the block's start. A message from before the block is
    /// put at offset 0: late messages are delivered, never dropped.
    pub fn drain_frames(&mut self, frames: usize) -> (block: MessageBuffer<T>)
        requires
            old(self).consumed() + frames <= usize::MAX,
        ensures
            block.window() == frames,
            block.items() == rebased_all(
                old(self).backlog().take(
                    due_count(old(self).backlog(), old(self).consumed() as int, frames as int),
                ),
                old(self).consumed() as int,
            ),
            final(self).backlog() == old(self).backlog().skip(
                due_count(old(self).backlog(), old(self).consumed() as int, frames as int),
            ),
            final(self).consumed() == old(self).consumed() + frames,
            final(self).paths() == old(self).paths(),
    {
        proof {
            use_type_invariant(&*self);
        }
        let start = self.curr;
        let end = start + frames;
        let index = if frames == 0 {
            0
        } else {
            slot_of(&self.team, end - 1)
        };
        let ghost before = self.team@;
        proof {
            if frames > 0 {
                lemma_upper_bound_parts(before, (end - 1) as usize);
            }
        }
        let mut due: Vec<(usize, Message<T>)> = Vec::new();
        core::mem::swap(&mut self.team, &mut due);
        let mut rest = due.split_off(index);
        assert(sorted_by_frame(rest@)) by {
            assert forall|i: int, j: int| 0 <= i <= j < rest@.len() implies rest@[i].0 <= rest@[j].0 by {
                assert(rest@[i] == before[index + i] && rest@[j] == before[index + j]);
            }
        }
        core::mem::swap(&mut self.team, &mut rest);
        self.curr = end;
        assert(due@ =~= before.take(index as int));
        assert(self.team@ =~= before.skip(index as int));
        let mut stack: Vec<(usize, Message<T>)> = Vec::new();
        let ghost taken = due@;
        while due.len() > 0
            invariant
                due@.len() + stack@.len() == taken.len(),
                due@ == taken.take(due@.len() as int),
                forall|k: int| 0 <= k < stack@.len() ==> #[trigger] stack@[k] == taken[taken.len() - 1 - k],
            decreases due.len(),
        {
            let ghost d = due@;
            match due.pop() {
                Some(e) => {
                    stack.push(e);
                    assert(due@ =~= taken.take(due@.len() as int));
                },
                None => {},
            }
        }
        let mut out: Vec<(usize, Message<T>)> = Vec::new();
        while stack.len() > 0
            invariant
                stack@.len() + out@.len() == taken.len(),
                forall|k: int| 0 <= k < stack@.len() ==> #[trigger] stack@[k] == taken[taken.len() - 1 - k],
                out@ == rebased_all(taken.take(out@.len() as int), start as int),
                taken == before.take(index as int),
                index <= before.len(),
                sorted_by_frame(before),
                end == start + frames,
                index > 0 ==> frames > 0,
                forall|i: int| 0 <= i < index ==> (#[trigger] before[i]).0 < end,
            decreases stack.len(),
        {
            let ghost done = out@.len();
            match stack.pop() {
                Some(e) => {
                    assert(e == taken[done as int]);
                    let offset = if e.0 <= start {
                        0
                    } else {
                        e.0 - start
                    };
                    out.push((offset, e.1));
                    assert(out@ =~= rebased_all(taken.take(out@.len() as int), start as int));
                },
                None => {},
            }
        }
        assert(taken.take(taken.len() as int) =~= taken);
        proof {
            let r = rebased_all(taken, start as int);
            assert forall|i: int, j: int| 0 <= i <= j < r.len() implies r[i].0 <= r[j].0 by {
                assert(taken[i] == before[i] && taken[j] == before[j]);
                assert(before[i].0 <= before[j].0);
            }
            assert forall|i: int| 0 <= i < r.len() implies (#[trigger] r[i]).0 < frames by {
                assert(taken[i] == before[i]);
                assert(before[i].0 < end);
            }
        }
        MessageBuffer::from_sorted(out, frames)
    }
}

} // verus!
