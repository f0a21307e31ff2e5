//! A writer that keeps a log of operations and brings both buffers up to
//! date with it.
//!
//! An operation is pushed onto the log and waits there. A publish applies
//! it to the writer's buffer with [`Operation::apply`] and starts a swap, so
//! that readers see it. The next publish, which works on the other buffer,
//! first retires it with [`Operation::apply_once`]: now both buffers have
//! seen it and it leaves the log. The *water line* parts the operations that
//! the next publish retires, in front, from those it applies for the first
//! time.
use vstd::prelude::*;
use core::task::{Context, Poll};
use crate::delay::DelayWriter;
use crate::interface::{reader_frame, AsyncStrategy, BlockingStrategy, Strategy, StrategyModel};
use crate::raw::{DoubleBufferData, Writer};
use crate::vec_drain::drain_unti;

verus! {

pub struct OpWriter<S: StrategyModel, O> {
    writer: DelayWriter<S>,
    op_log: Vec<O>,
    water_line: usize,
}

/// A mutation of a buffer that can be replayed on the other buffer.
///
/// What an operation does is given as a relation between the state before
/// and the state after, so that an operation need not be a function: it may
/// work on a buffer of which the contracts see only a part.
pub trait Operation<T, E, P>: Sized {
    /// Whether `after`, the operation, the buffer and the parameters, is what
    /// [`Operation::apply`] may leave.
    spec fn applies(self, buffer: T, extra: E, params: P, after: (Self, T, P)) -> bool;

    /// Whether `after`, the buffer and the parameters, is what
    /// [`Operation::apply_once`] may leave.
    spec fn applies_once(self, buffer: T, extra: E, params: P, after: (T, P)) -> bool;

    /// Applies the operation to a buffer for the first time. The operation
    /// stays in the log and may prepare itself for the second time.
    fn apply(&mut self, buffer: &mut T, extra: &E, params: &mut P)
        ensures
            old(self).applies(
                *old(buffer),
                *extra,
                *old(params),
                (*final(self), *final(buffer), *final(params)),
            ),
    ;

    /// Applies the operation to the other buffer and uses it up. An
    /// operation that has nothing of its own to do here calls
    /// [`apply_once_by_apply`].
    fn apply_once(self, buffer: &mut T, extra: &E, params: &mut P)
        ensures
            self.applies_once(*old(buffer), *extra, *old(params), (*final(buffer), *final(params))),
    ;
}

/// Uses an operation up by one call of [`Operation::apply`].
pub fn apply_once_by_apply<T, E, P, O: Operation<T, E, P>>(
    op: O,
    buffer: &mut T,
    extra: &E,
    params: &mut P,
)
    ensures
        exists|kept: O|
            op.applies(*old(buffer), *extra, *old(params), (kept, *final(buffer), *final(params))),
{
    let mut op = op;
    op.apply(buffer, extra, params)
}

/// Whether `after`, the buffer and the parameters, is what retiring each of
/// `ops`, in order, may leave.
pub open spec fn retires<T, E, P, O: Operation<T, E, P>>(
    ops: Seq<O>,
    buffer: T,
    extra: E,
    params: P,
    after: (T, P),
) -> bool
    decreases ops.len(),
{
    if ops.len() == 0 {
        after == (buffer, params)
    } else {
        exists|mid: (T, P)|
            #![trigger ops.first().applies_once(buffer, extra, params, mid)]
            ops.first().applies_once(buffer, extra, params, mid) && retires(
                ops.drop_first(),
                mid.0,
                extra,
                mid.1,
                after,
            )
    }
}

/// Whether `after`, the operations, the buffer and the parameters, is what
/// applying each of `ops` for the first time, in order, may leave.
pub open spec fn replays<T, E, P, O: Operation<T, E, P>>(
    ops: Seq<O>,
    buffer: T,
    extra: E,
    params: P,
    after: (Seq<O>, T, P),
) -> bool
    decreases ops.len(),
{
    if ops.len() == 0 {
        after == (Seq::<O>::empty(), buffer, params)
    } else {
        exists|mid: (O, T, P)|
            #![trigger ops.first().applies(buffer, extra, params, mid)]
            {
                &&& ops.first().applies(buffer, extra, params, mid)
                &&& after.0.len() > 0
                &&& after.0.first() == mid.0
                &&& replays(
                    ops.drop_first(),
                    mid.1,
                    extra,
                    mid.2,
                    (after.0.drop_first(), after.1, after.2),
                )
            }
    }
}

/// Whether `after` is what one publish may leave of a log with its water
/// line: the operations in front of the water line are retired on `buffer`
/// and leave the log, then the others are applied to it and stay.
pub open spec fn publishes<T, E, P, O: Operation<T, E, P>>(
    log: Seq<O>,
    water_line: int,
    buffer: T,
    extra: E,
    params: P,
    after: (Seq<O>, T, P),
) -> bool {
    exists|mid: (T, P)|
        #![trigger retires(log.take(water_line), buffer, extra, params, mid)]
        retires(log.take(water_line), buffer, extra, params, mid) && replays(
            log.skip(water_line),
            mid.0,
            extra,
            mid.1,
            after,
        )
}

/// What retiring a log that is not empty consists of: the first operation
/// is retired, which leaves the state that comes back, and then the others.
pub proof fn lemma_retires_first<T, E, P, O: Operation<T, E, P>>(
    ops: Seq<O>,
    buffer: T,
    extra: E,
    params: P,
    after: (T, P),
) -> (mid: (T, P))
    requires
        ops.len() > 0,
        retires(ops, buffer, extra, params, after),
    ensures
        ops.first().applies_once(buffer, extra, params, mid),
        retires(ops.drop_first(), mid.0, extra, mid.1, after),
{
    choose|mid: (T, P)|
        #[trigger] ops.first().applies_once(buffer, extra, params, mid) && retires(
            ops.drop_first(),
            mid.0,
            extra,
            mid.1,
            after,
        )
}

/// What replaying a log that is not empty consists of: the first operation
/// is applied, which leaves the state that comes back, and then the others.
pub proof fn lemma_replays_first<T, E, P, O: Operation<T, E, P>>(
    ops: Seq<O>,
    buffer: T,
    extra: E,
    params: P,
    after: (Seq<O>, T, P),
) -> (mid: (O, T, P))
    requires
        ops.len() > 0,
        replays(ops, buffer, extra, params, after),
    ensures
        ops.first().applies(buffer, extra, params, mid),
        after.0.len() > 0,
        after.0.first() == mid.0,
        replays(ops.drop_first(), mid.1, extra, mid.2, (after.0.drop_first(), after.1, after.2)),
{
    choose|mid: (O, T, P)|
        {
            &&& #[trigger] ops.first().applies(buffer, extra, params, mid)
            &&& after.0.len() > 0
            &&& after.0.first() == mid.0
            &&& replays(
                ops.drop_first(),
                mid.1,
                extra,
                mid.2,
                (after.0.drop_first(), after.1, after.2),
            )
        }
}

/// What a publish consists of: the front of the log is retired, which
/// leaves the state that comes back, and then the rest is replayed.
pub proof fn lemma_publishes_parts<T, E, P, O: Operation<T, E, P>>(
    log: Seq<O>,
    water_line: int,
    buffer: T,
    extra: E,
    params: P,
    after: (Seq<O>, T, P),
) -> (mid: (T, P))
    requires
        publishes(log, water_line, buffer, extra, params, after),
    ensures
        retires(log.take(water_line), buffer, extra, params, mid),
        replays(log.skip(water_line), mid.0, extra, mid.1, after),
{
    choose|mid: (T, P)|
        #[trigger] retires(log.take(water_line), buffer, extra, params, mid) && replays(
            log.skip(water_line),
            mid.0,
            extra,
            mid.1,
            after,
        )
}

/// Replaying keeps the number of operations.
pub proof fn lemma_replays_len<T, E, P, O: Operation<T, E, P>>(
    ops: Seq<O>,
    buffer: T,
    extra: E,
    params: P,
    after: (Seq<O>, T, P),
)
    requires
        replays(ops, buffer, extra, params, after),
    ensures
        after.0.len() == ops.len(),
    decreases ops.len(),
{
    if ops.len() > 0 {
        let mid = choose|mid: (O, T, P)|
            {
                &&& #[trigger] ops.first().applies(buffer, extra, params, mid)
                &&& after.0.len() > 0
                &&& after.0.first() == mid.0
                &&& replays(
                    ops.drop_first(),
                    mid.1,
                    extra,
                    mid.2,
                    (after.0.drop_first(), after.1, after.2),
                )
            };
        lemma_replays_len(
            ops.drop_first(),
            mid.1,
            extra,
            mid.2,
            (after.0.drop_first(), after.1, after.2),
        );
    }
}

/// An operation is applied to each buffer once, first by `apply` and then
/// by `apply_once`, and then it is gone.
///
/// The operation is pushed onto an empty log. The first publish applies it
/// to the buffer `first`, and it stays in the log, under the water line. The
/// second publish, on the other buffer `second`, retires it: what stayed in
/// the log is applied once more, and the log is empty.
pub proof fn lemma_two_publishes_retire<T, E, P, O: Operation<T, E, P>>(
    op: O,
    first: T,
    second: T,
    extra: E,
    params: P,
    once: (Seq<O>, T, P),
    twice: (Seq<O>, T, P),
)
    requires
        publishes(seq![op], 0, first, extra, params, once),
        publishes(once.0, once.0.len() as int, second, extra, once.2, twice),
    ensures
        once.0.len() == 1,
        op.applies(first, extra, params, (once.0[0], once.1, once.2)),
        once.0[0].applies_once(second, extra, once.2, (twice.1, twice.2)),
        twice.0.len() == 0,
{
    let log = seq![op];
    assert(log.take(0) =~= Seq::<O>::empty());
    assert(log.skip(0) =~= log);
    assert(log.drop_first() =~= Seq::<O>::empty());
    let mid = choose|mid: (T, P)|
        #[trigger] retires(log.take(0), first, extra, params, mid) && replays(
            log.skip(0),
            mid.0,
            extra,
            mid.1,
            once,
        );
    assert(mid == (first, params));
    lemma_replays_len(log, first, extra, params, once);
    let step = choose|step: (O, T, P)|
        {
            &&& #[trigger] log.first().applies(first, extra, params, step)
            &&& once.0.len() > 0
            &&& once.0.first() == step.0
            &&& replays(
                log.drop_first(),
                step.1,
                extra,
                step.2,
                (once.0.drop_first(), once.1, once.2),
            )
        };
    assert(step == (once.0[0], once.1, once.2));
    let kept = once.0;
    assert(kept.take(1) =~= kept);
    assert(kept.skip(1) =~= Seq::<O>::empty());
    assert(kept.drop_first() =~= Seq::<O>::empty());
    let last = choose|last: (T, P)|
        #[trigger] retires(kept.take(1), second, extra, once.2, last) && replays(
            kept.skip(1),
            last.0,
            extra,
            last.1,
            twice,
        );
    let gone = choose|gone: (T, P)|
        #[trigger] kept.first().applies_once(second, extra, once.2, gone) && retires(
            kept.drop_first(),
            gone.0,
            extra,
            gone.1,
            last,
        );
    assert(gone == last);
    assert(twice == (Seq::<O>::empty(), last.0, last.1));
}

/// Whatever the log holds, a publish retires everything in front of the
/// water line and keeps the rest, and the next publish retires all of that:
/// no operation is applied a third time, and none fewer than twice.
///
/// `log` with its water line goes through a publish on `first`, which leaves
/// `once`; then `pushed` is added; then a publish on `second`, which leaves
/// `twice`. Of the first log nothing is left: what the first publish kept has
/// been retired on `second`, and the log is what became of `pushed`.
pub proof fn lemma_publish_retires_the_log<T, E, P, O: Operation<T, E, P>>(
    log: Seq<O>,
    water_line: int,
    pushed: Seq<O>,
    first: T,
    second: T,
    extra: E,
    params: P,
    once: (Seq<O>, T, P),
    twice: (Seq<O>, T, P),
)
    requires
        0 <= water_line <= log.len(),
        publishes(log, water_line, first, extra, params, once),
        publishes(once.0 + pushed, once.0.len() as int, second, extra, once.2, twice),
    ensures
        once.0.len() == log.len() - water_line,
        twice.0.len() == pushed.len(),
        exists|retired: (T, P)|
            #![trigger retires(once.0, second, extra, once.2, retired)]
            retires(once.0, second, extra, once.2, retired) && replays(
                pushed,
                retired.0,
                extra,
                retired.1,
                twice,
            ),
{
    let mid = choose|mid: (T, P)|
        #[trigger] retires(log.take(water_line), first, extra, params, mid) && replays(
            log.skip(water_line),
            mid.0,
            extra,
            mid.1,
            once,
        );
    lemma_replays_len(log.skip(water_line), mid.0, extra, mid.1, once);
    let kept = once.0;
    assert((kept + pushed).take(kept.len() as int) =~= kept);
    assert((kept + pushed).skip(kept.len() as int) =~= pushed);
    let retired = choose|retired: (T, P)|
        #[trigger] retires((kept + pushed).take(kept.len() as int), second, extra, once.2, retired)
            && replays(
            (kept + pushed).skip(kept.len() as int),
            retired.0,
            extra,
            retired.1,
            twice,
        );
    lemma_replays_len(pushed, retired.0, extra, retired.1, twice);
    assert(retires(once.0, second, extra, once.2, retired));
}

/// Every strategy step that starts a swap succeeds, in whatever state.
pub open spec fn never_refuses<S: StrategyModel>() -> bool {
    forall|
        pre: S,
        writer: S::WriterId,
        post: S,
        after: S::WriterId,
        result: Result<S::Swap, S::SwapError>,
    | #[trigger] S::started(&pre, &writer, &post, &after, &result) ==> result is Ok
}

/// A value that is written to its place when the work on it is done.
pub struct SetOnDrop<'a>(pub usize, pub &'a mut usize);

impl<'a> SetOnDrop<'a> {
    /// Takes the value that is in `value` now, to work on.
    pub fn new(value: &'a mut usize) -> (guard: Self)
        ensures
            guard.0 == *old(value),
            *guard.1 == *old(value),
            *final(value) == *final(guard.1),
    {
        Self(*value, value)
    }

    /// Writes the value worked on to its place.
    pub fn set(self)
        ensures
            *final(self.1) == self.0,
    {
        let SetOnDrop(value, place) = self;
        *place = value;
    }
}

/// Brings the writer's buffer up to date with the log: retires the
/// operations in front of the water line, applies the others, and moves the
/// water line to the end of the log.
#[verifier::loop_isolation(false)]
fn swap_buffers<T, S: Strategy, Extras, O: Operation<T, Extras, Params>, Params>(
    writer: &mut Writer<S>,
    data: &mut DoubleBufferData<T, S, Extras>,
    op_log: &mut Vec<O>,
    water_line: &mut usize,
    params: &mut Params,
)
    requires
        old(writer).wf(old(data)),
        old(data).protocol().write_free(),
        *old(water_line) <= old(op_log)@.len(),
    ensures
        *final(writer) == *old(writer),
        final(data).strategy() == old(data).strategy(),
        final(data).extras() == old(data).extras(),
        final(data).read_value() == old(data).read_value(),
        publishes(
            old(op_log)@,
            *old(water_line) as int,
            old(data).write_value(),
            old(data).extras(),
            *old(params),
            (final(op_log)@, final(data).write_value(), *final(params)),
        ),
        *final(water_line) == final(op_log)@.len(),
{
    let ghost log = op_log@;
    let ghost line = *water_line as int;
    let ghost params0 = *params;
    let ghost extra = data.extras();
    let ghost buffer0 = data.write_value();
    let split = writer.split_mut(data);
    let buffer = split.write;
    let extras = split.extras;
    let mut guard = SetOnDrop::new(water_line);
    let mut drain = drain_unti(op_log, ..guard.0);
    let ghost log_end = *final(drain.vec);
    let ghost line_end = *final(guard.1);
    proof {
        assert(drain.vec@.take(line) == log.take(line));
    }
    while drain.remaining > 0
        invariant
            *final(drain.vec) == log_end,
            *final(guard.1) == line_end,
            guard.0 == drain.remaining,
            drain.remaining <= drain.vec@.len(),
            drain.vec@.skip(drain.remaining as int) == log.skip(line),
            forall|after: (T, Params)| #[trigger]
                retires(drain.vec@.take(drain.remaining as int), *buffer, extra, *params, after)
                    ==> retires(log.take(line), buffer0, extra, params0, after),
        decreases drain.remaining,
    {
        let ghost front = drain.vec@.take(drain.remaining as int);
        let ghost before = drain.vec@;
        let ghost buffer_now = *buffer;
        let ghost params_now = *params;
        match drain.next() {
            Some(op) => {
                guard.0 = guard.0 - 1;
                op.apply_once(buffer, extras, params);
                proof {
                    assert(front.first() == op);
                    assert(front.drop_first() =~= drain.vec@.take(drain.remaining as int));
                    assert(drain.vec@.skip(drain.remaining as int) =~= before.skip(
                        drain.remaining + 1,
                    ));
                    assert forall|after: (T, Params)| #[trigger]
                        retires(
                            drain.vec@.take(drain.remaining as int),
                            *buffer,
                            extra,
                            *params,
                            after,
                        ) implies retires(log.take(line), buffer0, extra, params0, after) by {
                        assert(front.first().applies_once(
                            buffer_now,
                            extra,
                            params_now,
                            (*buffer, *params),
                        ));
                        assert(retires(front, buffer_now, extra, params_now, after));
                    }
                }
            },
            None => {},
        }
    }
    let ghost retired = (*buffer, *params);
    proof {
        assert(drain.vec@.take(0) =~= Seq::<O>::empty());
        assert(drain.vec@.skip(0) =~= drain.vec@);
        assert(retires(drain.vec@.take(0), *buffer, extra, *params, retired));
    }
    let ghost rest = log.skip(line);
    let ops = drain.vec;
    let mut i: usize = 0;
    proof {
        assert(ops@.take(0) =~= Seq::<O>::empty());
        assert(rest.skip(0) =~= rest);
        assert forall|after: (Seq<O>, T, Params)| #[trigger]
            replays(rest.skip(0), *buffer, extra, *params, after) implies replays(
            rest,
            retired.0,
            extra,
            retired.1,
            (ops@.take(0) + after.0, after.1, after.2),
        ) by {
            assert(ops@.take(0) + after.0 =~= after.0);
        }
    }
    while i < ops.len()
        invariant
            *final(ops) == log_end,
            *final(guard.1) == line_end,
            i <= ops@.len(),
            ops@.len() == rest.len(),
            ops@.skip(i as int) == rest.skip(i as int),
            forall|after: (Seq<O>, T, Params)| #[trigger]
                replays(rest.skip(i as int), *buffer, extra, *params, after) ==> replays(
                    rest,
                    retired.0,
                    extra,
                    retired.1,
                    (ops@.take(i as int) + after.0, after.1, after.2),
                ),
        decreases ops@.len() - i,
    {
        let ghost before = ops@;
        let ghost tail = rest.skip(i as int);
        let ghost buffer_now = *buffer;
        let ghost params_now = *params;
        proof {
            assert(tail.first() == before[i as int]) by {
                assert(before.skip(i as int)[0] == tail[0]);
            }
            assert(tail.drop_first() =~= rest.skip(i + 1));
        }
        ops[i].apply(buffer, extras, params);
        proof {
            let step = (ops@[i as int], *buffer, *params);
            assert(tail.first().applies(buffer_now, extra, params_now, step));
            assert(ops@.skip(i + 1) =~= before.skip(i + 1));
            assert(before.skip(i + 1) =~= before.skip(i as int).drop_first());
            assert(ops@.take(i + 1) =~= before.take(i as int) + seq![step.0]);
            assert forall|after: (Seq<O>, T, Params)| #[trigger]
                replays(rest.skip(i + 1), *buffer, extra, *params, after) implies replays(
                rest,
                retired.0,
                extra,
                retired.1,
                (ops@.take(i + 1) + after.0, after.1, after.2),
            ) by {
                let whole = (seq![step.0] + after.0, after.1, after.2);
                assert(whole.0.first() == step.0);
                assert(whole.0.drop_first() =~= after.0);
                assert(replays(tail, buffer_now, extra, params_now, whole));
                assert(before.take(i as int) + (seq![step.0] + after.0) =~= (before.take(i as int)
                    + seq![step.0]) + after.0);
            }
        }
        i += 1;
    }
    proof {
        let done = (Seq::<O>::empty(), *buffer, *params);
        assert(ops@.take(i as int) =~= ops@);
        assert(rest.skip(i as int) =~= Seq::<O>::empty());
        assert(replays(rest.skip(i as int), *buffer, extra, *params, done));
        assert(ops@ + Seq::<O>::empty() =~= ops@);
        assert(replays(rest, retired.0, extra, retired.1, (ops@, *buffer, *params)));
        assert(retires(log.take(line), buffer0, extra, params0, retired));
    }
    guard.0 = ops.len();
    guard.set();
}

impl<S: StrategyModel, O> OpWriter<S, O> {
    /// The delay writer inside.
    pub closed spec fn inner(&self) -> DelayWriter<S> {
        self.writer
    }

    /// The log: the operations that have not been applied to both buffers.
    pub closed spec fn log(&self) -> Seq<O> {
        self.op_log@
    }

    /// How many operations, from the front of the log, the next publish retires.
    pub closed spec fn water_line(&self) -> int {
        self.water_line as int
    }

    /// The delay writer is in order and the water line lies within the log.
    pub open spec fn wf<T, Extras>(&self, data: &DoubleBufferData<T, S, Extras>) -> bool {
        &&& self.inner().wf(data)
        &&& 0 <= self.water_line() <= self.log().len()
    }

    /// An operation writer with an empty log.
    pub fn from_writer(writer: DelayWriter<S>) -> (op_writer: Self)
        ensures
            op_writer.inner() == writer,
            op_writer.log() == Seq::<O>::empty(),
            op_writer.water_line() == 0,
    {
        Self { writer, op_log: Vec::new(), water_line: 0 }
    }

    /// Adds an operation to the end of the log. Nothing is applied yet.
    #[inline]
    pub fn push(&mut self, op: O)
        ensures
            final(self).inner() == old(self).inner(),
            final(self).log() == old(self).log().push(op),
            final(self).water_line() == old(self).water_line(),
    {
        self.op_log.push(op)
    }

    /// Makes room in the log for `additional` operations.
    #[inline]
    pub fn reserve(&mut self, additional: usize)
        ensures
            final(self).inner() == old(self).inner(),
            final(self).log() == old(self).log(),
            final(self).water_line() == old(self).water_line(),
    {
        self.op_log.reserve(additional)
    }

    /// Adds operations to the end of the log, in their order.
    #[inline]
    pub fn extend(&mut self, ops: Vec<O>)
        ensures
            final(self).inner() == old(self).inner(),
            final(self).log() == old(self).log() + ops@,
            final(self).water_line() == old(self).water_line(),
    {
        let mut ops = ops;
        self.op_log.append(&mut ops)
    }

    /// The delay writer inside, to read through.
    pub fn as_delay(&self) -> (writer: &DelayWriter<S>)
        ensures
            *writer == self.inner(),
    {
        &self.writer
    }
}

impl<S: Strategy, O> OpWriter<S, O> {
    /// Whether `after`, the log, the buffer and the parameters, is what a
    /// publish may leave when the swap before it has finished; the buffer is
    /// the one that the writer owns once that swap is finished.
    pub open spec fn publishes_to<T, Extras, Params>(
        &self,
        data: &DoubleBufferData<T, S, Extras>,
        params: Params,
        after: (Seq<O>, T, Params),
    ) -> bool where O: Operation<T, Extras, Params> {
        publishes(
            self.log(),
            self.water_line(),
            data.cell(self.inner().target(data)),
            data.extras(),
            params,
            after,
        )
    }

    /// Publishes the log: finishes the swap under way, brings the writer's
    /// buffer up to date with the log, and starts a swap.
    ///
    /// While a guard still pins the cell that the swap under way hands over,
    /// nothing is published and `false` comes back: the caller waits to be
    /// woken and asks again.
    pub fn swap_buffers<T, Extras, Params>(
        &mut self,
        data: &mut DoubleBufferData<T, S, Extras>,
        params: &mut Params,
    ) -> (done: bool) where S: BlockingStrategy, O: Operation<T, Extras, Params>
        requires
            old(self).wf(old(data)),
            never_refuses::<S>(),
        ensures
            final(self).wf(final(data)),
            reader_frame(&old(data).strategy(), &final(data).strategy()),
            final(data).extras() == old(data).extras(),
            final(data).protocol().held_plain == old(data).protocol().held_plain,
            final(data).protocol().held_swapped == old(data).protocol().held_swapped,
            done == old(self).inner().settled(old(data)),
            done ==> {
                let target = old(self).inner().target(old(data));
                &&& old(self).publishes_to(
                    old(data),
                    *old(params),
                    (final(self).log(), final(data).cell(target), *final(params)),
                )
                &&& final(data).cell(!target) == old(data).cell(!target)
                &&& final(self).water_line() == final(self).log().len()
                &&& final(self).inner().pending() is Some
                &&& final(self).inner().target(final(data)) == !target
            },
            !done ==> {
                &&& final(self).log() == old(self).log()
                &&& final(self).water_line() == old(self).water_line()
                &&& final(self).inner().pending() is Some
                &&& final(data).same_values(old(data))
                &&& final(data).protocol() == old(data).protocol()
                &&& *final(params) == *old(params)
            },
    {
        match self.writer.finish_swap(data) {
            Some(writer) => {
                swap_buffers(writer, data, &mut self.op_log, &mut self.water_line, params);
            },
            None => {
                return false;
            },
        }
        self.writer.start_swap(data);
        true
    }

    /// One poll of a publish: as [`OpWriter::swap_buffers`], but while the
    /// swap under way cannot finish the waker of `cx` is registered and
    /// `Pending` comes back. The log and the water line are then untouched, so
    /// a later call resumes the publish.
    pub fn aswap_buffers<T, Extras, Params>(
        &mut self,
        data: &mut DoubleBufferData<T, S, Extras>,
        params: &mut Params,
        cx: &mut Context<'_>,
    ) -> (out: Poll<()>) where S: AsyncStrategy, O: Operation<T, Extras, Params>
        requires
            old(self).wf(old(data)),
            never_refuses::<S>(),
        ensures
            final(self).wf(final(data)),
            reader_frame(&old(data).strategy(), &final(data).strategy()),
            final(data).extras() == old(data).extras(),
            final(data).protocol().held_plain == old(data).protocol().held_plain,
            final(data).protocol().held_swapped == old(data).protocol().held_swapped,
            out is Ready <==> old(self).inner().settled(old(data)),
            out is Ready ==> {
                let target = old(self).inner().target(old(data));
                &&& old(self).publishes_to(
                    old(data),
                    *old(params),
                    (final(self).log(), final(data).cell(target), *final(params)),
                )
                &&& final(data).cell(!target) == old(data).cell(!target)
                &&& final(self).water_line() == final(self).log().len()
                &&& final(self).inner().pending() is Some
                &&& final(self).inner().target(final(data)) == !target
            },
            out is Pending ==> {
                &&& final(data).strategy().registered()
                &&& final(self).log() == old(self).log()
                &&& final(self).water_line() == old(self).water_line()
                &&& final(self).inner().pending() is Some
                &&& final(data).same_values(old(data))
                &&& final(data).protocol() == old(data).protocol()
                &&& *final(params) == *old(params)
            },
    {
        match self.writer.afinish_swap(data, cx) {
            Poll::Ready(_) => {},
            Poll::Pending => {
                return Poll::Pending;
            },
        }
        match self.writer.get_writer_mut(data) {
            Some(writer) => {
                swap_buffers(writer, data, &mut self.op_log, &mut self.water_line, params);
            },
            None => {
                return Poll::Pending;
            },
        }
        self.writer.start_swap(data);
        Poll::Ready(())
    }
}

} // verus!
