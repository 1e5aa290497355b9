//! The stream adaptor: a pull-based byte reader over the items that the
//! indexing workers produce.
//!
//! Every item that is accepted is serialised to its wire line and, in the
//! same step, appended to the mirror. The byte stream is therefore always
//! the concatenation of the wire lines of the mirror, in mirror order, and
//! the `n`-th line that a consumer of the stream sees is backed by the
//! `n`-th entry of the mirror.
//!
//! The adaptor does not wait on anything itself. [`StreamAdaptor::demand`]
//! says what has to happen before the next read can be served: nothing,
//! while serialised bytes are waiting; a blocking receive, when none are;
//! and after every item that arrives, a receive that does not block, until
//! the queue is found empty. Whoever owns the queue performs what is asked
//! and reports back with [`StreamAdaptor::accept`],
//! [`StreamAdaptor::queue_empty`] or [`StreamAdaptor::close`].

use crate::record::{item_views, lemma_wire_line_is_one_line, Item, ItemView};
use crate::text::no_line_feed;
use vstd::prelude::*;
use vstd::slice::slice_subrange;

verus! {

/// Concatenation of the wire lines of `items`, first to last.
pub open spec fn wire_stream(items: Seq<ItemView>) -> Seq<u8>
    decreases items.len(),
{
    if items.len() == 0 {
        Seq::<u8>::empty()
    } else {
        wire_stream(items.drop_last()) + items.last().wire_line()
    }
}

/// What has to happen before the next read is served.
#[derive(Clone, Copy, Debug, PartialEq, Eq)]
pub enum Demand {
    /// Serialised bytes are waiting: a read returns at least one byte.
    Ready,
    /// Nothing is buffered and producers may still send: wait for an item.
    AwaitItem,
    /// An item has just arrived: take what else is queued, without waiting.
    PollQueue,
    /// Nothing is buffered and every producer is gone: reads return zero.
    EndOfStream,
}

/// Mathematical value of a [`StreamAdaptor`].
pub struct AdaptorView {
    /// Every item accepted so far, in the order of acceptance.
    pub mirror: Seq<ItemView>,
    /// Number of bytes of the stream that have been handed out.
    pub position: nat,
    /// Whether the producing side has been reported closed.
    pub closed: bool,
    /// Whether the queue may hold more since an item last arrived.
    pub draining: bool,
}

impl AdaptorView {
    /// An adaptor that has accepted nothing and handed out nothing.
    pub open spec fn fresh() -> AdaptorView {
        AdaptorView { mirror: Seq::empty(), position: 0, closed: false, draining: false }
    }

    /// All bytes serialised so far, handed out or not.
    pub open spec fn stream(self) -> Seq<u8> {
        wire_stream(self.mirror)
    }

    /// The read position lies within the stream.
    pub open spec fn wf(self) -> bool {
        self.position <= self.stream().len()
    }

    /// The bytes serialised but not yet handed out.
    pub open spec fn pending(self) -> Seq<u8> {
        self.stream().skip(self.position as int)
    }

    /// The state after `item` has been accepted.
    pub open spec fn accept(self, item: ItemView) -> AdaptorView {
        AdaptorView { mirror: self.mirror.push(item), draining: true, ..self }
    }

    /// The state after the queue has been found empty.
    pub open spec fn queue_empty(self) -> AdaptorView {
        AdaptorView { draining: false, ..self }
    }

    /// The state after the producing side has been reported closed.
    pub open spec fn close(self) -> AdaptorView {
        AdaptorView { closed: true, draining: false, ..self }
    }

    /// Number of bytes a consumer gets that asks for at most `max`.
    pub open spec fn granted(self, max: nat) -> nat {
        if max <= self.pending().len() {
            max
        } else {
            self.pending().len()
        }
    }

    /// The state after a consumer has taken at most `max` bytes.
    pub open spec fn advance(self, max: nat) -> AdaptorView {
        AdaptorView { position: self.position + self.granted(max), ..self }
    }

    /// The bytes that a read of at most `max` bytes returns.
    pub open spec fn read(self, max: nat) -> Seq<u8> {
        self.pending().take(self.granted(max) as int)
    }

    /// What has to happen before the next read is served.
    pub open spec fn demand(self) -> Demand {
        if self.draining {
            Demand::PollQueue
        } else if self.pending().len() > 0 {
            Demand::Ready
        } else if self.closed {
            Demand::EndOfStream
        } else {
            Demand::AwaitItem
        }
    }
}

/// One thing that happens to an adaptor.
pub enum Step {
    /// An item arrives and is accepted.
    Accept(ItemView),
    /// A consumer reads at most this many bytes.
    Read(nat),
    /// The queue is found empty.
    QueueEmpty,
    /// The producing side is reported closed.
    Close,
}

impl AdaptorView {
    /// The state after `step`.
    pub open spec fn step(self, step: Step) -> AdaptorView {
        match step {
            Step::Accept(item) => self.accept(item),
            Step::Read(max) => self.advance(max),
            Step::QueueEmpty => self.queue_empty(),
            Step::Close => self.close(),
        }
    }

    /// The bytes that `step` hands to a consumer.
    pub open spec fn output(self, step: Step) -> Seq<u8> {
        match step {
            Step::Read(max) => self.read(max),
            _ => Seq::<u8>::empty(),
        }
    }

    /// The state after `steps`, first to last.
    pub open spec fn run(self, steps: Seq<Step>) -> AdaptorView
        decreases steps.len(),
    {
        if steps.len() == 0 {
            self
        } else {
            self.run(steps.drop_last()).step(steps.last())
        }
    }

    /// Everything that `steps` hand to consumers, concatenated.
    pub open spec fn run_output(self, steps: Seq<Step>) -> Seq<u8>
        decreases steps.len(),
    {
        if steps.len() == 0 {
            Seq::<u8>::empty()
        } else {
            self.run_output(steps.drop_last()) + self.run(steps.drop_last()).output(steps.last())
        }
    }
}

/// The items that `steps` accept, in their order.
pub open spec fn accepted(steps: Seq<Step>) -> Seq<ItemView>
    decreases steps.len(),
{
    if steps.len() == 0 {
        Seq::<ItemView>::empty()
    } else {
        match steps.last() {
            Step::Accept(item) => accepted(steps.drop_last()).push(item),
            _ => accepted(steps.drop_last()),
        }
    }
}

/// The steps that accept `items` one after the other.
pub open spec fn accepts(items: Seq<ItemView>) -> Seq<Step> {
    items.map_values(|item: ItemView| Step::Accept(item))
}

/// The steps that read in chunks of at most `sizes`, one after the other.
pub open spec fn reads(sizes: Seq<nat>) -> Seq<Step> {
    sizes.map_values(|max: nat| Step::Read(max))
}

/// Sum of `sizes`.
pub open spec fn total(sizes: Seq<nat>) -> nat
    decreases sizes.len(),
{
    if sizes.len() == 0 {
        0
    } else {
        total(sizes.drop_last()) + sizes.last()
    }
}

/// Buffered reader over accepted items that mirrors what it serialises.
pub struct StreamAdaptor {
    /// Tail of the stream: everything serialised since the buffer was last
    /// emptied.
    buffer: Vec<u8>,
    /// Number of bytes of `buffer` already handed out.
    cursor: usize,
    /// Every item serialised so far.
    mirror: Vec<Item>,
    /// Whether the producing side has been reported closed.
    closed: bool,
    /// Whether the queue may hold more since an item last arrived.
    draining: bool,
    /// Number of bytes of the stream that were dropped from `buffer`.
    dropped: Ghost<nat>,
}

impl View for StreamAdaptor {
    type V = AdaptorView;

    closed spec fn view(&self) -> AdaptorView {
        AdaptorView {
            mirror: item_views(self.mirror@),
            position: self.dropped@ + self.cursor as nat,
            closed: self.closed,
            draining: self.draining,
        }
    }
}

/// Accepting an item appends its wire line to the stream.
pub proof fn lemma_stream_push(items: Seq<ItemView>, item: ItemView)
    ensures
        wire_stream(items.push(item)) == wire_stream(items) + item.wire_line(),
{
    assert(items.push(item).drop_last() =~= items);
}

/// The stream of a sequence of items is the stream of any front part of it
/// followed by the stream of the rest.
pub proof fn lemma_stream_concat(front: Seq<ItemView>, back: Seq<ItemView>)
    ensures
        wire_stream(front + back) == wire_stream(front) + wire_stream(back),
    decreases back.len(),
{
    if back.len() == 0 {
        assert(front + back =~= front);
        assert(wire_stream(front) + wire_stream(back) =~= wire_stream(front));
    } else {
        lemma_stream_concat(front, back.drop_last());
        assert((front + back).drop_last() =~= front + back.drop_last());
        assert(wire_stream(front + back) =~= wire_stream(front) + wire_stream(back));
    }
}

/// Number of line feeds in `bytes`.
pub open spec fn line_feeds(bytes: Seq<u8>) -> nat
    decreases bytes.len(),
{
    if bytes.len() == 0 {
        0
    } else {
        line_feeds(bytes.drop_last()) + if bytes.last() == 0x0au8 {
            1nat
        } else {
            0nat
        }
    }
}

proof fn lemma_line_feeds_concat(front: Seq<u8>, back: Seq<u8>)
    ensures
        line_feeds(front + back) == line_feeds(front) + line_feeds(back),
    decreases back.len(),
{
    if back.len() == 0 {
        assert(front + back =~= front);
    } else {
        lemma_line_feeds_concat(front, back.drop_last());
        assert((front + back).drop_last() =~= front + back.drop_last());
    }
}

proof fn lemma_line_feeds_none(bytes: Seq<u8>)
    requires
        no_line_feed(bytes),
    ensures
        line_feeds(bytes) == 0,
    decreases bytes.len(),
{
    if bytes.len() > 0 {
        lemma_line_feeds_none(bytes.drop_last());
    }
}

/// One line per item. Where every item is shown on one line, the stream
/// holds as many line feeds as there are items, and each item's wire line
/// stands in the stream behind exactly as many line feeds as there are
/// items in front of it: the line at a position in the stream is the wire
/// line of the item at that position in the mirror.
pub proof fn lemma_one_line_per_item(items: Seq<ItemView>)
    requires
        forall|i: int| 0 <= i < items.len() ==> (#[trigger] items[i]).one_line(),
    ensures
        line_feeds(wire_stream(items)) == items.len(),
        forall|n: int|
            0 <= n < items.len() ==> {
                let front = #[trigger] wire_stream(items.take(n));
                let line = items[n].wire_line();
                &&& line_feeds(front) == n
                &&& front.len() + line.len() <= wire_stream(items).len()
                &&& wire_stream(items).take(front.len() as int) == front
                &&& wire_stream(items).subrange(front.len() as int, (front.len() + line.len()) as int)
                    == line
            },
    decreases items.len(),
{
    if items.len() > 0 {
        let front = items.drop_last();
        let last = items.last();
        lemma_one_line_per_item(front);
        lemma_wire_line_is_one_line(last);
        let line = last.wire_line();
        lemma_line_feeds_none(line.drop_last());
        assert(line.drop_last().push(line.last()) =~= line);
        lemma_line_feeds_concat(wire_stream(front), line);
    }
    assert forall|n: int| 0 <= n < items.len() implies {
        let front = #[trigger] wire_stream(items.take(n));
        let line = items[n].wire_line();
        &&& line_feeds(front) == n
        &&& front.len() + line.len() <= wire_stream(items).len()
        &&& wire_stream(items).take(front.len() as int) == front
        &&& wire_stream(items).subrange(front.len() as int, (front.len() + line.len()) as int) == line
    } by {
        let front = wire_stream(items.take(n));
        let line = items[n].wire_line();
        lemma_one_line_per_item(items.take(n));
        lemma_stream_push(items.take(n), items[n]);
        lemma_stream_concat(items.take(n + 1), items.skip(n + 1));
        assert(items.take(n).push(items[n]) =~= items.take(n + 1));
        assert(items.take(n + 1) + items.skip(n + 1) =~= items);
        assert(wire_stream(items) == front + line + wire_stream(items.skip(n + 1)));
        assert(wire_stream(items).take(front.len() as int) =~= front);
        assert(wire_stream(items).subrange(front.len() as int, (front.len() + line.len()) as int)
            =~= line);
    }
}

/// The central invariant. Whatever happens to an adaptor, in whatever
/// order, its mirror grows by exactly the items it accepts, in their order;
/// the stream is at every moment the concatenation of the wire lines of
/// the mirror, so that what was serialised before stays in front; and what
/// is handed to consumers, taken together, is the part of that stream
/// between the position before and the position after.
pub proof fn lemma_run(start: AdaptorView, steps: Seq<Step>)
    requires
        start.wf(),
    ensures
        start.run(steps).wf(),
        start.run(steps).mirror == start.mirror + accepted(steps),
        start.run(steps).stream() == start.stream() + wire_stream(accepted(steps)),
        start.position <= start.run(steps).position,
        start.run_output(steps) == start.run(steps).stream().subrange(
            start.position as int,
            start.run(steps).position as int,
        ),
    decreases steps.len(),
{
    let end = start.run(steps);
    if steps.len() == 0 {
        assert(start.mirror + accepted(steps) =~= start.mirror);
        assert(start.stream() + wire_stream(accepted(steps)) =~= start.stream());
        assert(start.run_output(steps) =~= end.stream().subrange(
            start.position as int,
            end.position as int,
        ));
    } else {
        let before = start.run(steps.drop_last());
        lemma_run(start, steps.drop_last());
        let seen = accepted(steps.drop_last());
        match steps.last() {
            Step::Accept(item) => {
                lemma_stream_push(before.mirror, item);
                lemma_stream_push(seen, item);
                assert(end.mirror =~= start.mirror + accepted(steps));
                assert(end.stream() =~= start.stream() + wire_stream(accepted(steps)));
                assert(start.run_output(steps) =~= end.stream().subrange(
                    start.position as int,
                    end.position as int,
                ));
            },
            _ => {
                assert(start.run_output(steps) =~= end.stream().subrange(
                    start.position as int,
                    end.position as int,
                ));
            },
        }
    }
}

/// Items accepted one after the other by a fresh adaptor make up its
/// mirror, in that order, and a read that is large enough returns the
/// concatenation of their wire lines, in that order.
pub proof fn lemma_accepts(items: Seq<ItemView>)
    ensures
        AdaptorView::fresh().run(accepts(items)).mirror == items,
        AdaptorView::fresh().run(accepts(items)).position == 0,
        AdaptorView::fresh().run(accepts(items)).stream() == wire_stream(items),
        AdaptorView::fresh().run(accepts(items)).read(wire_stream(items).len()) == wire_stream(
            items,
        ),
    decreases items.len(),
{
    let end = AdaptorView::fresh().run(accepts(items));
    if items.len() == 0 {
        assert(end.mirror =~= items);
        assert(end.read(wire_stream(items).len()) =~= wire_stream(items));
    } else {
        lemma_accepts(items.drop_last());
        assert(accepts(items).drop_last() =~= accepts(items.drop_last()));
        assert(end.mirror =~= items);
        assert(end.read(wire_stream(items).len()) =~= wire_stream(items));
    }
}

/// Reading in chunks, of whatever sizes, hands out by concatenation the
/// same bytes as one read of the sum of the sizes, and leaves the adaptor
/// in the same state.
pub proof fn lemma_chunked_reads(start: AdaptorView, sizes: Seq<nat>)
    requires
        start.wf(),
    ensures
        start.run(reads(sizes)) == start.advance(total(sizes)),
        start.run_output(reads(sizes)) == start.read(total(sizes)),
    decreases sizes.len(),
{
    if sizes.len() == 0 {
        assert(start.read(0) =~= Seq::<u8>::empty());
    } else {
        let shorter = sizes.drop_last();
        lemma_chunked_reads(start, shorter);
        assert(reads(sizes).drop_last() =~= reads(shorter));
        let middle = start.advance(total(shorter));
        assert(middle.pending() =~= start.pending().skip(start.granted(total(shorter)) as int));
        assert(start.read(total(shorter)) + middle.read(sizes.last()) =~= start.read(total(sizes)));
    }
}

impl StreamAdaptor {
    #[verifier::type_invariant]
    spec fn inv(self) -> bool {
        &&& self.cursor <= self.buffer@.len()
        &&& self.dropped@ <= wire_stream(item_views(self.mirror@)).len()
        &&& self.buffer@ == wire_stream(item_views(self.mirror@)).skip(self.dropped@ as int)
    }

    /// An adaptor that has accepted nothing yet.
    pub fn new() -> (adaptor: StreamAdaptor)
        ensures
            adaptor@ == AdaptorView::fresh(),
            adaptor@.wf(),
    {
        let buffer: Vec<u8> = Vec::new();
        let mirror: Vec<Item> = Vec::new();
        proof {
            assert(item_views(mirror@) =~= Seq::<ItemView>::empty());
            assert(buffer@ =~= wire_stream(item_views(mirror@)).skip(0));
        }
        StreamAdaptor {
            buffer,
            cursor: 0,
            mirror,
            closed: false,
            draining: false,
            dropped: Ghost(0),
        }
    }

    /// Serialises `item` onto the end of the stream and appends it to the
    /// mirror.
    pub fn accept(&mut self, item: Item)
        ensures
            final(self)@ == old(self)@.accept(item@),
            final(self)@.wf(),
    {
        proof {
            use_type_invariant(&*self);
        }
        let mut taken = StreamAdaptor::new();
        std::mem::swap(self, &mut taken);
        let StreamAdaptor { mut buffer, mut cursor, mut mirror, closed, draining: _, dropped } =
            taken;
        let ghost mut gone = dropped@;
        let ghost before = item_views(mirror@);
        if cursor == buffer.len() {
            proof {
                gone = gone + buffer@.len();
            }
            buffer.clear();
            cursor = 0;
        }
        let mut line = item.wire_line();
        buffer.append(&mut line);
        mirror.push(item);
        proof {
            lemma_stream_push(before, item@);
            assert(item_views(mirror@) =~= before.push(item@));
            assert(buffer@ =~= wire_stream(item_views(mirror@)).skip(gone as int));
        }
        *self = StreamAdaptor {
            buffer,
            cursor,
            mirror,
            closed,
            draining: true,
            dropped: Ghost(gone),
        };
    }

    /// Records that the queue was found empty while producers are left.
    pub fn queue_empty(&mut self)
        ensures
            final(self)@ == old(self)@.queue_empty(),
            final(self)@.wf(),
    {
        proof {
            use_type_invariant(&*self);
        }
        self.draining = false;
    }

    /// Records that no producer is left.
    pub fn close(&mut self)
        ensures
            final(self)@ == old(self)@.close(),
            final(self)@.wf(),
    {
        proof {
            use_type_invariant(&*self);
        }
        self.closed = true;
        self.draining = false;
    }

    /// Says what has to happen before the next read is served.
    pub fn demand(&self) -> (d: Demand)
        ensures
            d == self@.demand(),
            self@.wf(),
    {
        proof {
            use_type_invariant(self);
        }
        if self.draining {
            Demand::PollQueue
        } else if self.cursor < self.buffer.len() {
            Demand::Ready
        } else if self.closed {
            Demand::EndOfStream
        } else {
            Demand::AwaitItem
        }
    }

    /// The bytes that are serialised and not yet handed out.
    pub fn peek_available(&self) -> (bytes: &[u8])
        ensures
            bytes@ == self@.pending(),
            self@.wf(),
    {
        proof {
            use_type_invariant(self);
        }
        let bytes = slice_subrange(self.buffer.as_slice(), self.cursor, self.buffer.len());
        assert(bytes@ =~= self@.pending());
        bytes
    }

    /// Marks the first `n` pending bytes as handed out, or all of them
    /// where fewer are pending.
    pub fn advance(&mut self, n: usize)
        ensures
            final(self)@ == old(self)@.advance(n as nat),
            final(self)@.wf(),
    {
        proof {
            use_type_invariant(&*self);
        }
        let available = self.buffer.len() - self.cursor;
        let step = if n < available { n } else { available };
        self.cursor = self.cursor + step;
    }

    /// Copies pending bytes to the front of `buf`, as many as fit, marks
    /// them as handed out and returns their number. The rest of `buf` is
    /// left as it was.
    pub fn read(&mut self, buf: &mut [u8]) -> (n: usize)
        ensures
            n == old(self)@.granted(old(buf)@.len()),
            final(buf)@ == old(self)@.read(old(buf)@.len()) + old(buf)@.skip(n as int),
            final(self)@ == old(self)@.advance(old(buf)@.len()),
            final(self)@.wf(),
    {
        proof {
            use_type_invariant(&*self);
        }
        let ghost before = buf@;
        let ghost pending = self@.pending();
        let start = self.cursor;
        let available = self.buffer.len() - start;
        let n = if buf.len() < available { buf.len() } else { available };
        let mut i: usize = 0;
        while i < n
            invariant
                i <= n,
                n <= buf@.len(),
                buf@.len() == before.len(),
                start == self.cursor,
                start + n <= self.buffer.len(),
                forall|j: int| 0 <= j < i ==> buf@[j] == self.buffer@[start + j],
                forall|j: int| i <= j < buf@.len() ==> buf@[j] == before[j],
            decreases n - i,
        {
            buf[i] = self.buffer[start + i];
            i = i + 1;
        }
        proof {
            assert(buf@ =~= pending.take(n as int) + before.skip(n as int));
        }
        self.cursor = self.cursor + n;
        n
    }

    /// Gives up the adaptor for its mirror.
    pub fn into_mirror(self) -> (mirror: Vec<Item>)
        ensures
            item_views(mirror@) == self@.mirror,
    {
        let StreamAdaptor { buffer: _, cursor: _, mirror, closed: _, draining: _, dropped: _ } =
            self;
        mirror
    }
}

} // verus!
