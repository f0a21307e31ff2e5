use dbuf::delay::DelayWriter;
use dbuf::interface::{AsyncStrategy, Strategy};
use dbuf::raw::{DoubleBufferData, Reader, Writer};
use dbuf::strategy::atomic::AtomicStrategy;
use dbuf::strategy::outline_writer::OutlineWriterStrategy;
use dbuf::strategy::simple::SimpleStrategy;
use dbuf::strategy::simple_async::SimpleAsyncStrategy;
use std::sync::atomic::{AtomicUsize, Ordering};
use std::sync::Arc;
use std::task::{Context, Poll, Wake, Waker};

struct CountingWaker {
    wakes: AtomicUsize,
}

impl Wake for CountingWaker {
    fn wake(self: Arc<Self>) {
        self.wakes.fetch_add(1, Ordering::SeqCst);
    }
}

fn read_once<S: Strategy>(
    reader: Reader<S>,
    data: &mut DoubleBufferData<i32, S>,
) -> (i32, Reader<S>) {
    let guard = reader.read(data);
    let value = *guard.get(data);
    (value, guard.release(data))
}

#[test]
fn simple_swap_is_refused_while_a_guard_is_out() {
    let mut data = DoubleBufferData::new(10, 300, SimpleStrategy::new());
    let mut writer = Writer::new(&mut data);
    let reader = writer.reader(&mut data);
    let guard = reader.read(&mut data);
    assert_eq!(*guard.get(&data), 10);
    assert_eq!(*writer.get(&data), 300);
    assert_eq!(writer.try_swap(&mut data), Err(()));
    assert_eq!(*guard.get(&data), 10);
    assert_eq!(*writer.get_mut(&mut data), 300);
    let reader = guard.release(&mut data);
    assert!(writer.try_swap(&mut data).is_ok());
    assert_eq!(*writer.get_mut(&mut data), 10);
    let guard = reader.read(&mut data);
    assert_eq!(*guard.get(&data), 300);
}

#[test]
fn simple_smoke() {
    let mut state = DoubleBufferData::new(0, 1, SimpleStrategy::new());
    let mut writer = Writer::new(&mut state);

    let reader = writer.reader(&mut state);

    let x = reader.read(&mut state);
    assert_eq!(*x.get(&state), *writer.split(&state).read);

    let _reader = x.release(&mut state);

    let mut swap = writer.try_start_swap(&mut state).unwrap();

    assert!(writer.is_swap_finished(&mut state, &mut swap));

    assert!(writer.finish_swap(&mut state, swap).is_ok());
}

#[test]
fn tests_test_issue_1() {
    let mut data = DoubleBufferData::new(1, 2, SimpleStrategy::new());

    let writer = Writer::new(&mut data);
    let mut writer = DelayWriter::from_writer(writer);

    let reader1 = writer.as_writer().reader(&mut data);
    let (value, reader1) = read_once(reader1, &mut data);
    assert_eq!(value, 1);

    writer.start_swap(&mut data);
    assert!(writer.finish_swap(&mut data).is_some());

    let reader2 = writer.as_writer().reader(&mut data);
    let (value, reader1) = read_once(reader1, &mut data);
    assert_eq!(value, 2);
    let (value, reader2) = read_once(reader2, &mut data);
    assert_eq!(value, 2);

    let guard = reader2.read(&mut data);

    assert_eq!(*guard.get(&data), 2);

    *writer.get_writer_mut(&mut data).unwrap().get_mut(&mut data) = 3;

    assert_eq!(*guard.get(&data), 2);
    let reader2 = guard.release(&mut data);

    let (value, _) = read_once(reader1, &mut data);
    assert_eq!(value, 2);
    let (value, _) = read_once(reader2, &mut data);
    assert_eq!(value, 2);
}

#[test]
fn simple_async_smoke() {
    let mut state = DoubleBufferData::new(0, 1, SimpleAsyncStrategy::new());
    let mut writer = Writer::new(&mut state);

    let reader = writer.reader(&mut state);

    let x = reader.read(&mut state);
    assert_eq!(*x.get(&state), *writer.split(&state).read);

    let mut swap = writer.try_start_swap(&mut state).unwrap();

    assert!(!writer.is_swap_finished(&mut state, &mut swap));

    assert_eq!(*x.get(&state), *writer.split(&state).write);

    let counter = Arc::new(CountingWaker {
        wakes: AtomicUsize::new(0),
    });
    let waker = Waker::from(counter.clone());
    let mut cx = Context::from_waker(&waker);
    assert_eq!(
        writer.afinish_swap(&mut state, &mut swap).poll(&mut cx),
        Poll::Pending
    );

    let _reader = x.release(&mut state);
    assert_eq!(counter.wakes.load(Ordering::SeqCst), 1);

    assert!(writer.is_swap_finished(&mut state, &mut swap));

    assert_eq!(
        writer.afinish_swap(&mut state, &mut swap).poll(&mut cx),
        Poll::Ready(())
    );
}

#[test]
fn simple_async_double_swap() {
    let mut state = DoubleBufferData::new(0, 1, SimpleAsyncStrategy::new());
    let mut writer = Writer::new(&mut state);
    let reader = writer.reader(&mut state);
    let (value, reader) = read_once(reader, &mut state);
    assert_eq!(value, 0);
    let mut swap = writer.try_start_swap(&mut state).unwrap();
    assert!(writer.is_swap_finished(&mut state, &mut swap));
    let (value, reader) = read_once(reader, &mut state);
    assert_eq!(value, 1);
    let mut swap = writer.try_start_swap(&mut state).unwrap();
    assert!(writer.is_swap_finished(&mut state, &mut swap));
    let (value, _) = read_once(reader, &mut state);
    assert_eq!(value, 0);
}

#[test]
fn simple_async_register_context_only_registers() {
    let mut strategy = SimpleAsyncStrategy::new();
    let mut writer = strategy.create_writer_id();
    let mut swap = strategy.try_start_swap(&mut writer).unwrap();
    let counter = Arc::new(CountingWaker {
        wakes: AtomicUsize::new(0),
    });
    let waker = Waker::from(counter.clone());
    let mut cx = Context::from_waker(&waker);
    assert_eq!(
        strategy.register_context(&mut writer, &mut swap, &mut cx),
        Poll::Pending
    );
    assert_eq!(counter.wakes.load(Ordering::SeqCst), 0);
}

#[test]
fn atomic_swap_is_carried_out_when_the_readers_have_left() {
    let mut state = DoubleBufferData::new(0, 1, AtomicStrategy::new_blocking());
    let mut writer = Writer::new(&mut state);
    let reader = writer.reader(&mut state);
    let guard = reader.read(&mut state);
    assert_eq!(*guard.get(&state), 0);

    let mut swap = writer.try_start_swap(&mut state).unwrap();
    // nothing has changed yet: the writer still owns its cell
    assert_eq!(*writer.get(&state), 1);
    assert!(!writer.is_swap_finished(&mut state, &mut swap));
    // and readers still go to theirs
    let other = writer.reader(&mut state);
    let second = other.read(&mut state);
    assert_eq!(*second.get(&state), 0);

    let _ = guard.release(&mut state);
    assert!(!writer.is_swap_finished(&mut state, &mut swap));
    let other = second.release(&mut state);
    assert!(writer.is_swap_finished(&mut state, &mut swap));
    assert!(writer.is_swap_finished(&mut state, &mut swap));
    assert_eq!(*writer.get(&state), 0);
    let (value, _) = read_once(other, &mut state);
    assert_eq!(value, 1);
}

#[test]
fn atomic_async_registers_the_waker_while_readers_stay() {
    let mut state = DoubleBufferData::new(0, 1, AtomicStrategy::new_async());
    let mut writer = Writer::new(&mut state);
    let reader = writer.reader(&mut state);
    let guard = reader.read(&mut state);
    let mut swap = writer.try_start_swap(&mut state).unwrap();
    let counter = Arc::new(CountingWaker {
        wakes: AtomicUsize::new(0),
    });
    let waker = Waker::from(counter.clone());
    let mut cx = Context::from_waker(&waker);
    assert_eq!(
        writer.afinish_swap(&mut state, &mut swap).poll(&mut cx),
        Poll::Pending
    );
    let _ = guard.release(&mut state);
    assert_eq!(
        writer.afinish_swap(&mut state, &mut swap).poll(&mut cx),
        Poll::Ready(())
    );
    assert_eq!(*writer.get(&state), 0);
}

#[test]
fn outline_writer_forwards_every_step() {
    let mut state = DoubleBufferData::new(
        0,
        1,
        OutlineWriterStrategy::new(SimpleStrategy::new()),
    );
    let mut writer = Writer::new(&mut state);
    let reader = writer.reader(&mut state);
    let guard = reader.read(&mut state);
    assert_eq!(*guard.get(&state), 0);
    assert!(writer.try_start_swap(&mut state).is_err());
    let reader = guard.release(&mut state);
    let mut swap = writer.try_start_swap(&mut state).unwrap();
    assert!(writer.is_swap_finished(&mut state, &mut swap));
    let (value, _) = read_once(reader, &mut state);
    assert_eq!(value, 1);
    assert_eq!(*writer.get(&state), 0);
}

#[test]
fn delay_writer_starts_a_swap_once_and_keeps_it() {
    let mut data = DoubleBufferData::new(0, 1, dbuf::strategy::flashmap::FlashStrategy::new());
    let writer = Writer::new(&mut data);
    let mut writer = DelayWriter::from_writer(writer);
    let reader = writer.as_writer().reader(&mut data);
    let guard = reader.read(&mut data);

    assert!(!writer.has_swap());
    assert!(writer.is_swap_finished(&mut data));
    writer.start_swap(&mut data);
    assert!(writer.has_swap());
    assert_eq!(*writer.as_writer().get(&data), 0);
    // a second start changes nothing
    writer.start_swap(&mut data);
    assert!(writer.try_start_swap(&mut data).is_ok());
    assert_eq!(*writer.as_writer().get(&data), 0);
    assert!(writer.has_swap());

    assert!(!writer.is_swap_finished(&mut data));
    assert!(writer.get_writer_mut(&mut data).is_none());
    assert!(writer.finish_swap(&mut data).is_none());
    let mut writer = match writer.try_into_writer() {
        Ok(_) => panic!("a swap is under way"),
        Err(writer) => writer,
    };
    let mut writer = match writer.into_writer(&mut data) {
        Ok(_) => panic!("a guard is still out"),
        Err(writer) => writer,
    };

    let _ = guard.release(&mut data);
    assert!(writer.is_swap_finished(&mut data));
    assert!(!writer.has_swap());
    assert!(writer.get_writer_mut(&mut data).is_some());
    let mut raw = writer.try_into_writer().ok().unwrap();
    assert_eq!(*raw.get_mut(&mut data), 0);
}
