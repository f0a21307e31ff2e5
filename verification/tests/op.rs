use dbuf::delay::DelayWriter;
use dbuf::double_buffer::op::{Operation as FlushOperation, Writer as FlushWriter};
use dbuf::op::{apply_once_by_apply, OpWriter, Operation, SetOnDrop};
use dbuf::raw::{DoubleBufferData, Writer};
use dbuf::strategy::flashmap::FlashStrategy;
use dbuf::vec_drain::drain_unti;
use std::sync::atomic::{AtomicUsize, Ordering};
use std::sync::Arc;
use std::task::{Context, Poll, Wake, Waker};

struct CountingWaker {
    wakes: AtomicUsize,
}

impl Wake for CountingWaker {
    fn wake(self: Arc<Self>) {
        self.wakes.fetch_add(1, Ordering::SeqCst);
    }
}

/// Appends a mark to the buffer and remembers how often it was applied.
struct Mark {
    mark: u32,
    applied: u32,
}

impl Operation<Vec<(u32, &'static str)>, u32, u32> for Mark {
    // what the contracts of the library say of this operation; never run
    fn applies(
        self,
        _: Vec<(u32, &'static str)>,
        _: u32,
        _: u32,
        _: (Self, Vec<(u32, &'static str)>, u32),
    ) -> bool {
        unreachable!()
    }

    fn applies_once(
        self,
        _: Vec<(u32, &'static str)>,
        _: u32,
        _: u32,
        _: (Vec<(u32, &'static str)>, u32),
    ) -> bool {
        unreachable!()
    }

    fn apply(&mut self, buffer: &mut Vec<(u32, &'static str)>, extra: &u32, params: &mut u32) {
        self.applied += 1;
        *params += 1;
        buffer.push((self.mark + *extra, "apply"));
    }

    fn apply_once(self, buffer: &mut Vec<(u32, &'static str)>, extra: &u32, params: &mut u32) {
        assert_eq!(self.applied, 1);
        *params += 1;
        buffer.push((self.mark + *extra, "apply_once"));
    }
}

struct Add(i32);

impl Operation<i32, (), ()> for Add {
    fn applies(self, _: i32, _: (), _: (), _: (Self, i32, ())) -> bool {
        unreachable!()
    }

    fn applies_once(self, _: i32, _: (), _: (), _: (i32, ())) -> bool {
        unreachable!()
    }

    fn apply(&mut self, buffer: &mut i32, _: &(), _: &mut ()) {
        *buffer += self.0;
    }

    fn apply_once(self, buffer: &mut i32, extra: &(), params: &mut ()) {
        apply_once_by_apply(self, buffer, extra, params)
    }
}

impl FlushOperation<i32> for Add {
    fn applied(self, _: i32) -> (Self, i32) {
        unreachable!()
    }

    fn apply(&mut self, buffer: &mut i32) {
        *buffer += self.0;
    }

    fn apply_once(self, buffer: &mut i32) {
        *buffer += self.0;
    }
}

#[test]
fn each_operation_is_applied_to_both_buffers_and_then_gone() {
    let mut data =
        DoubleBufferData::with_extras(Vec::new(), Vec::new(), FlashStrategy::new_blocking(), 100);
    let writer = Writer::new(&mut data);
    let mut writer = OpWriter::from_writer(DelayWriter::from_writer(writer));
    let mut params = 0;

    writer.push(Mark { mark: 1, applied: 0 });
    writer.push(Mark { mark: 2, applied: 0 });
    assert!(writer.swap_buffers(&mut data, &mut params));
    assert_eq!(params, 2);

    writer.push(Mark { mark: 3, applied: 0 });
    assert!(writer.swap_buffers(&mut data, &mut params));
    assert_eq!(params, 5);

    assert!(writer.swap_buffers(&mut data, &mut params));
    assert_eq!(params, 6);
    assert!(writer.swap_buffers(&mut data, &mut params));
    assert_eq!(params, 6);

    let raw = writer.as_delay().as_writer();
    let split = raw.split(&data);
    let mut marks = vec![split.read.clone(), split.write.clone()];
    marks.sort();
    assert_eq!(
        marks,
        vec![
            vec![(101, "apply"), (102, "apply"), (103, "apply_once")],
            vec![(101, "apply_once"), (102, "apply_once"), (103, "apply")],
        ]
    );
}

#[test]
fn publish_waits_while_a_reader_pins_the_retired_buffer() {
    let mut data = DoubleBufferData::new(0, 0, FlashStrategy::new_blocking());
    let writer = Writer::new(&mut data);
    let reader = writer.reader(&mut data);
    let mut writer = OpWriter::from_writer(DelayWriter::from_writer(writer));

    let guard = reader.read(&mut data);
    writer.push(Add(5));
    assert!(writer.swap_buffers(&mut data, &mut ()));
    // the reader still sees the old buffer, and the next publish needs it
    assert_eq!(*guard.get(&data), 0);
    writer.extend(vec![Add(1), Add(1)]);
    writer.reserve(4);
    assert!(!writer.swap_buffers(&mut data, &mut ()));
    assert_eq!(*guard.get(&data), 0);

    let reader = guard.release(&mut data);
    assert!(writer.swap_buffers(&mut data, &mut ()));
    let guard = reader.read(&mut data);
    assert_eq!(*guard.get(&data), 7);
    let _ = guard.release(&mut data);
    assert!(writer.swap_buffers(&mut data, &mut ()));
    // now both buffers have seen everything
    assert_eq!(*writer.as_delay().as_writer().split(&data).read, 7);
    assert_eq!(*writer.as_delay().as_writer().split(&data).write, 7);
}

#[test]
fn async_publish_is_resumed_after_it_was_given_up() {
    let mut data = DoubleBufferData::new(0, 0, FlashStrategy::new_async());
    let writer = Writer::new(&mut data);
    let reader = writer.reader(&mut data);
    let mut writer = OpWriter::from_writer(DelayWriter::from_writer(writer));
    let counter = Arc::new(CountingWaker {
        wakes: AtomicUsize::new(0),
    });
    let waker = Waker::from(counter.clone());
    let mut cx = Context::from_waker(&waker);

    writer.push(Add(2));
    assert_eq!(
        writer.aswap_buffers(&mut data, &mut (), &mut cx),
        Poll::Ready(())
    );
    let guard = reader.read(&mut data);
    assert_eq!(*guard.get(&data), 2);
    assert_eq!(
        writer.aswap_buffers(&mut data, &mut (), &mut cx),
        Poll::Ready(())
    );
    writer.push(Add(3));
    assert_eq!(
        writer.aswap_buffers(&mut data, &mut (), &mut cx),
        Poll::Pending
    );
    assert_eq!(
        writer.aswap_buffers(&mut data, &mut (), &mut cx),
        Poll::Pending
    );
    let reader = guard.release(&mut data);
    assert_eq!(counter.wakes.load(Ordering::SeqCst), 1);
    assert_eq!(
        writer.aswap_buffers(&mut data, &mut (), &mut cx),
        Poll::Ready(())
    );
    let guard = reader.read(&mut data);
    assert_eq!(*guard.get(&data), 5);
}

#[test]
fn drain_takes_the_front_and_leaves_the_rest() {
    let mut v = vec![1, 2, 3, 4, 5];
    {
        let mut drain = drain_unti(&mut v, ..3);
        assert_eq!(drain.next(), Some(1));
        assert_eq!(drain.next(), Some(2));
        assert_eq!(drain.next(), Some(3));
        assert_eq!(drain.next(), None);
        assert_eq!(drain.next(), None);
    }
    assert_eq!(v, vec![4, 5]);

    let mut v = vec![1, 2, 3, 4, 5];
    {
        let mut drain = drain_unti(&mut v, ..3);
        assert_eq!(drain.next(), Some(1));
    }
    // what was not taken stays, in front of the rest
    assert_eq!(v, vec![2, 3, 4, 5]);

    let mut v = vec![1];
    {
        let mut drain = drain_unti(&mut v, ..0);
        assert_eq!(drain.next(), None);
    }
    assert_eq!(v, vec![1]);
}

#[test]
fn set_on_drop_writes_the_value_worked_on() {
    let mut line = 3;
    {
        let mut guard = SetOnDrop::new(&mut line);
        assert_eq!(guard.0, 3);
        guard.0 -= 2;
        guard.set();
    }
    assert_eq!(line, 1);
}

#[test]
fn flush_replays_what_only_one_buffer_has_seen() {
    let mut data = DoubleBufferData::new(10, 10, FlashStrategy::new_blocking());
    let writer = Writer::new(&mut data);
    let mut writer = FlushWriter::from_writer(writer);
    let reader = writer.reader(&mut data);

    writer.flush(&mut data);
    assert_eq!(*writer.read(&data), 10);

    writer.apply(&mut data, Add(1));
    writer.apply_all(&mut data, vec![Add(2), Add(3)]);
    assert_eq!(writer.operations().len(), 3);
    assert_eq!(*writer.read(&data), 10);
    {
        let (read, mut by_ref, extra) = writer.split(&mut data);
        assert_eq!(*read, 10);
        assert_eq!(*extra, ());
        assert_eq!(*by_ref.buffer, 16);
        by_ref.by_ref().apply(Add(4));
        assert_eq!(by_ref.operations().len(), 4);
    }

    let guard = reader.read(&mut data);
    assert_eq!(*guard.get(&data), 10);
    let reader = guard.release(&mut data);

    writer.flush(&mut data);
    assert_eq!(writer.operations().len(), 0);
    assert_eq!(*writer.read(&data), 20);
    let guard = reader.read(&mut data);
    assert_eq!(*guard.get(&data), 20);
    assert_eq!(*writer.extra(&data), ());
    let _ = guard.release(&mut data);
    writer.apply(&mut data, Add(0));
    writer.flush(&mut data);
    assert_eq!(*writer.read(&data), 20);
}
