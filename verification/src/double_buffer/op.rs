//! Operations that are applied to the writer's buffer at once, and kept
//! until a flush has applied them to the other buffer as well.
use vstd::prelude::*;
use crate::interface::{reader_frame, writer_frame, BlockingStrategy, Strategy, StrategyModel};
use crate::raw::writer::{start_settles, start_succeeds};
use crate::raw::{DoubleBufferData, Reader};
use crate::vec_drain::drain_unti;

verus! {

/// A mutation of a buffer that can be replayed on the other buffer.
pub trait Operation<B>: Sized {
    /// The operation and the buffer after [`Operation::apply`].
    spec fn applied(self, buffer: B) -> (Self, B);

    /// The buffer after [`Operation::apply_once`]: unless an operation says
    /// otherwise, the buffer after [`Operation::apply`].
    open spec fn applied_once(self, buffer: B) -> B {
        self.applied(buffer).1
    }

    /// Applies the operation to a buffer for the first time.
    fn apply(&mut self, buffer: &mut B)
        ensures
            (*final(self), *final(buffer)) == old(self).applied(*old(buffer)),
    ;

    /// Applies the operation to the other buffer and uses it up.
    fn apply_once(self, buffer: &mut B)
        ensures
            *final(buffer) == self.applied_once(*old(buffer)),
    ;
}

/// The operations and the buffer after each of `ops` has been applied for
/// the first time, in order.
pub open spec fn applied_all<B, O: Operation<B>>(ops: Seq<O>, buffer: B) -> (Seq<O>, B)
    decreases ops.len(),
{
    if ops.len() == 0 {
        (Seq::empty(), buffer)
    } else {
        let (op, b) = ops.first().applied(buffer);
        let (rest, b2) = applied_all(ops.drop_first(), b);
        (seq![op] + rest, b2)
    }
}

/// The buffer after each of `ops` has been applied to it once more and used
/// up, in order.
pub open spec fn flushed<B, O: Operation<B>>(ops: Seq<O>, buffer: B) -> B
    decreases ops.len(),
{
    if ops.len() == 0 {
        buffer
    } else {
        flushed(ops.drop_first(), ops.first().applied_once(buffer))
    }
}

/// A writer with the operations that only its own buffer has seen.
pub struct Writer<S: StrategyModel, O> {
    writer: crate::raw::Writer<S>,
    ops: Vec<O>,
}

/// The writer's buffer and the operations that only it has seen.
pub struct WriterRef<'a, B, O> {
    pub buffer: &'a mut B,
    pub ops: &'a mut Vec<O>,
}

impl<B, O: Operation<B>> WriterRef<'_, B, O> {
    /// Applies `op` to the buffer and keeps it for the other buffer.
    #[inline]
    pub fn apply(&mut self, op: O)
        ensures
            (final(self).ops@.last(), *final(self).buffer) == op.applied(*old(self).buffer),
            final(self).ops@.drop_last() == old(self).ops@,
            final(self).ops@.len() == old(self).ops@.len() + 1,
            *final(final(self).buffer) == *final(old(self).buffer),
            *final(final(self).ops) == *final(old(self).ops),
    {
        let mut op = op;
        op.apply(self.buffer);
        self.ops.push(op);
        proof {
            assert(self.ops@.drop_last() =~= old(self).ops@);
        }
    }

    /// Applies each of `ops` to the buffer, in order, and keeps them for
    /// the other buffer.
    #[inline]
    #[verifier::loop_isolation(false)]
    pub fn apply_all(&mut self, ops: Vec<O>)
        ensures
            (final(self).ops@.skip(old(self).ops@.len() as int), *final(self).buffer)
                == applied_all(ops@, *old(self).buffer),
            final(self).ops@.take(old(self).ops@.len() as int) == old(self).ops@,
            *final(final(self).buffer) == *final(old(self).buffer),
            *final(final(self).ops) == *final(old(self).ops),
    {
        let mut ops = ops;
        let ghost all = ops@;
        let ghost kept = self.ops@;
        let ghost goal = applied_all(all, *self.buffer);
        let ghost buffer_end = *final(self.buffer);
        let ghost ops_end = *final(self.ops);
        let count = ops.len();
        let mut drain = drain_unti(&mut ops, ..count);
        proof {
            assert(self.ops@.skip(kept.len() as int) =~= Seq::<O>::empty());
            assert(Seq::<O>::empty() + goal.0 =~= goal.0);
            assert(drain.vec@.take(count as int) =~= all);
        }
        while drain.remaining > 0
            invariant
                *final(self.buffer) == buffer_end,
                *final(self.ops) == ops_end,
                drain.remaining == drain.vec@.len(),
                self.ops@.len() >= kept.len(),
                self.ops@.take(kept.len() as int) == kept,
                goal.0 == self.ops@.skip(kept.len() as int) + applied_all(
                    drain.vec@,
                    *self.buffer,
                ).0,
                goal.1 == applied_all(drain.vec@, *self.buffer).1,
            decreases drain.remaining,
        {
            let ghost before = drain.vec@;
            let ghost done = self.ops@;
            match drain.next() {
                Some(op) => {
                    let ghost step = op.applied(*self.buffer);
                    proof {
                        assert(before.first() == op);
                        assert(before.drop_first() =~= drain.vec@);
                    }
                    self.apply(op);
                    proof {
                        let rest = applied_all(drain.vec@, *self.buffer).0;
                        assert(self.ops@ =~= done.push(step.0));
                        assert(self.ops@.take(kept.len() as int) =~= done.take(kept.len() as int));
                        assert(self.ops@.skip(kept.len() as int) =~= done.skip(kept.len() as int)
                            + seq![step.0]);
                        assert(done.skip(kept.len() as int) + (seq![step.0] + rest) =~= (done.skip(
                            kept.len() as int,
                        ) + seq![step.0]) + rest);
                    }
                },
                None => {},
            }
        }
        proof {
            assert(drain.vec@ =~= Seq::<O>::empty());
            assert(self.ops@.skip(kept.len() as int) + Seq::<O>::empty() =~= self.ops@.skip(
                kept.len() as int,
            ));
        }
    }

    /// The operations that only the writer's buffer has seen.
    #[inline]
    pub fn operations(&self) -> (ops: &[O])
        ensures
            ops@ == old(self.ops)@,
    {
        self.ops.as_slice()
    }

    /// The same buffer and operations, borrowed for a while.
    #[inline]
    pub fn by_ref(&mut self) -> (by_ref: WriterRef<'_, B, O>)
        ensures
            *by_ref.buffer == *old(self).buffer,
            *by_ref.ops == *old(self).ops,
            *final(self).buffer == *final(by_ref.buffer),
            *final(self).ops == *final(by_ref.ops),
            *final(final(self).buffer) == *final(old(self).buffer),
            *final(final(self).ops) == *final(old(self).ops),
    {
        WriterRef { buffer: self.buffer, ops: self.ops }
    }
}

impl<S: StrategyModel, O> Writer<S, O> {
    /// The raw writer inside.
    pub closed spec fn inner(&self) -> crate::raw::Writer<S> {
        self.writer
    }

    /// The operations that only the writer's buffer has seen.
    pub closed spec fn pending(&self) -> Seq<O> {
        self.ops@
    }

    /// The raw writer drives `data` and no swap is under way.
    pub open spec fn wf<T, Extras>(&self, data: &DoubleBufferData<T, S, Extras>) -> bool {
        &&& self.inner().wf(data)
        &&& data.protocol().write_free()
    }

    /// A writer without operations.
    #[inline]
    pub fn from_writer(writer: crate::raw::Writer<S>) -> (op_writer: Self)
        ensures
            op_writer.inner() == writer,
            op_writer.pending() == Seq::<O>::empty(),
    {
        Writer { writer, ops: Vec::new() }
    }

    /// The operations that only the writer's buffer has seen.
    #[inline]
    pub fn operations(&self) -> (ops: &[O])
        ensures
            ops@ == self.pending(),
    {
        self.ops.as_slice()
    }
}

impl<S: Strategy, O> Writer<S, O> {
    /// Creates a new reader of the payload that this writer drives.
    pub fn reader<T, Extras>(&self, data: &mut DoubleBufferData<T, S, Extras>) -> (reader: Reader<
        S,
    >)
        requires
            self.wf(old(data)),
        ensures
            self.wf(final(data)),
            reader.wf(final(data)),
            final(data).protocol() == old(data).protocol(),
            final(data).same_values(old(data)),
            writer_frame(&old(data).strategy(), &final(data).strategy()),
            reader_frame(&old(data).strategy(), &final(data).strategy()),
    {
        self.writer.reader(data)
    }

    /// The readers' buffer.
    pub fn read<'a, T, Extras>(&self, data: &'a DoubleBufferData<T, S, Extras>) -> (value: &'a T)
        requires
            self.inner().wf(data),
        ensures
            *value == data.read_value(),
    {
        self.writer.split(data).read
    }

    /// The extra data stored beside the buffers.
    pub fn extra<'a, T, Extras>(&self, data: &'a DoubleBufferData<T, S, Extras>) -> (extra:
        &'a Extras)
        ensures
            *extra == data.extras(),
    {
        self.writer.extras(data)
    }

    /// The readers' buffer, the writer's buffer with the operations that only
    /// it has seen, and the extras.
    #[inline]
    pub fn split<'a, T, Extras>(&'a mut self, data: &'a mut DoubleBufferData<T, S, Extras>) -> (parts: (
        &'a T,
        WriterRef<'a, T, O>,
        &'a Extras,
    )) where O: Operation<T>
        requires
            old(self).wf(old(data)),
        ensures
            *parts.0 == old(data).read_value(),
            *parts.1.buffer == old(data).write_value(),
            parts.1.ops@ == old(self).pending(),
            *parts.2 == old(data).extras(),
            final(self).inner() == old(self).inner(),
            final(self).pending() == final(parts.1.ops)@,
            final(data).strategy() == old(data).strategy(),
            final(data).extras() == old(data).extras(),
            final(data).read_value() == old(data).read_value(),
            final(data).write_value() == *final(parts.1.buffer),
    {
        let split = self.writer.split_mut(data);
        (split.read, WriterRef { buffer: split.write, ops: &mut self.ops }, split.extras)
    }

    /// Applies `op` to the writer's buffer and keeps it for the other buffer.
    #[inline]
    pub fn apply<T, Extras>(&mut self, data: &mut DoubleBufferData<T, S, Extras>, op: O) where
        O: Operation<T>,

        requires
            old(self).wf(old(data)),
        ensures
            final(self).wf(final(data)),
            final(self).inner() == old(self).inner(),
            final(data).strategy() == old(data).strategy(),
            final(data).extras() == old(data).extras(),
            final(data).read_value() == old(data).read_value(),
            (final(self).pending().last(), final(data).write_value()) == op.applied(
                old(data).write_value(),
            ),
            final(self).pending().drop_last() == old(self).pending(),
            final(self).pending().len() == old(self).pending().len() + 1,
    {
        let (_, mut writer, _) = self.split(data);
        writer.apply(op);
    }

    /// Applies each of `ops` to the writer's buffer, in order, and keeps
    /// them for the other buffer.
    #[inline]
    pub fn apply_all<T, Extras>(&mut self, data: &mut DoubleBufferData<T, S, Extras>, ops: Vec<O>)
        where O: Operation<T>
        requires
            old(self).wf(old(data)),
        ensures
            final(self).wf(final(data)),
            final(self).inner() == old(self).inner(),
            final(data).strategy() == old(data).strategy(),
            final(data).extras() == old(data).extras(),
            final(data).read_value() == old(data).read_value(),
            (final(self).pending().skip(old(self).pending().len() as int), final(data).write_value()) == applied_all(ops@, old(data).write_value()),
            final(self).pending().take(old(self).pending().len() as int) == old(self).pending(),
    {
        let (_, mut writer, _) = self.split(data);
        writer.apply_all(ops);
    }

    /// Swaps the buffers and applies to the writer's new buffer what only the
    /// old one had seen. The strategy must not refuse the swap, and no reader
    /// may pin the cell that the swap hands to the writer.
    fn flush_slow<T, Extras>(&mut self, data: &mut DoubleBufferData<T, S, Extras>) where
        S: BlockingStrategy,
        O: Operation<T>,

        requires
            old(self).wf(old(data)),
            start_succeeds(&old(data).strategy(), &old(self).inner().id()),
            start_settles(&old(data).strategy(), &old(self).inner().id()),
        ensures
            final(self).wf(final(data)),
            reader_frame(&old(data).strategy(), &final(data).strategy()),
            final(data).protocol() == old(data).protocol().toggle(),
            final(data).extras() == old(data).extras(),
            final(data).read_value() == old(data).write_value(),
            final(data).write_value() == flushed(old(self).pending(), old(data).read_value()),
            final(self).pending() == Seq::<O>::empty(),
    {
        self.writer.swap(data);
        let ghost swapped = *data;
        let ghost goal = flushed(self.ops@, data.write_value());
        let buffer = self.writer.get_mut(data);
        let count = self.ops.len();
        let mut drain = drain_unti(&mut self.ops, ..count);
        let ghost buffer_end = *final(buffer);
        let ghost ops_end = *final(drain.vec);
        proof {
            assert(drain.vec@.take(count as int) =~= drain.vec@);
        }
        while drain.remaining > 0
            invariant
                *final(buffer) == buffer_end,
                *final(drain.vec) == ops_end,
                drain.remaining == drain.vec@.len(),
                flushed(drain.vec@, *buffer) == goal,
            decreases drain.remaining,
        {
            let ghost before = drain.vec@;
            match drain.next() {
                Some(op) => {
                    proof {
                        assert(before.first() == op);
                        assert(before.drop_first() =~= drain.vec@);
                    }
                    op.apply_once(buffer);
                },
                None => {},
            }
        }
        proof {
            assert(drain.vec@ =~= Seq::<O>::empty());
        }
    }

    /// Brings the other buffer up to date, if anything is pending: swaps the
    /// buffers and applies the pending operations to the writer's new
    /// buffer. Without pending operations nothing happens.
    #[inline]
    pub fn flush<T, Extras>(&mut self, data: &mut DoubleBufferData<T, S, Extras>) where
        S: BlockingStrategy,
        O: Operation<T>,

        requires
            old(self).wf(old(data)),
            old(self).pending().len() > 0 ==> start_succeeds(
                &old(data).strategy(),
                &old(self).inner().id(),
            ) && start_settles(&old(data).strategy(), &old(self).inner().id()),
        ensures
            final(self).wf(final(data)),
            reader_frame(&old(data).strategy(), &final(data).strategy()),
            final(data).extras() == old(data).extras(),
            final(self).pending() == Seq::<O>::empty(),
            old(self).pending().len() == 0 ==> {
                &&& final(data).strategy() == old(data).strategy()
                &&& final(data).same_values(old(data))
            },
            old(self).pending().len() > 0 ==> {
                &&& final(data).protocol() == old(data).protocol().toggle()
                &&& final(data).read_value() == old(data).write_value()
                &&& final(data).write_value() == flushed(
                    old(self).pending(),
                    old(data).read_value(),
                )
            },
    {
        if !self.ops.is_empty() {
            self.flush_slow(data);
        } else {
            proof {
                assert(self.pending() =~= Seq::<O>::empty());
            }
        }
    }
}

} // verus!
