use dbuf::delay::DelayWriter;
use dbuf::interface::{BlockingStrategy, Strategy};
use dbuf::raw::{DoubleBufferData, Writer};
use dbuf::strategy::flashmap::FlashStrategy;
use std::sync::atomic::{AtomicUsize, Ordering};
use std::sync::Arc;
use std::task::{Context, Poll, Wake, Waker};

struct CountingWaker {
    wakes: AtomicUsize,
}

impl Wake for CountingWaker {
    fn wake(self: Arc<Self>) {
        self.wakes.fetch_add(1, Ordering::SeqCst);
    }
}

fn counting_waker() -> (Arc<CountingWaker>, Waker) {
    let counter = Arc::new(CountingWaker {
        wakes: AtomicUsize::new(0),
    });
    (counter.clone(), Waker::from(counter))
}

#[test]
fn flashmap_smoke() {
    let mut state = DoubleBufferData::new(0, 1, FlashStrategy::new());
    let mut writer = Writer::new(&mut state);

    let reader = writer.reader(&mut state);

    let x = reader.read(&mut state);
    assert_eq!(*x.get(&state), *writer.split(&state).read);

    let mut swap = writer.try_start_swap(&mut state).unwrap();

    assert!(!writer.is_swap_finished(&mut state, &mut swap));

    assert_eq!(*x.get(&state), *writer.split(&state).write);

    let _reader = x.release(&mut state);

    assert!(writer.is_swap_finished(&mut state, &mut swap));

    assert!(writer.finish_swap(&mut state, swap).is_ok());
}

#[test]
fn test_double_swap() {
    let mut state = DoubleBufferData::new(0, 1, FlashStrategy::new());
    let mut writer = Writer::new(&mut state);

    let reader = writer.reader(&mut state);

    let x = reader.read(&mut state);
    assert_eq!(*x.get(&state), 0);
    assert_eq!(*x.get(&state), *writer.split(&state).read);

    // the swap completes only after the guard is given back
    let swap = writer.try_start_swap(&mut state).unwrap();
    assert_eq!(*x.get(&state), *writer.split(&state).write);
    let swap = writer.finish_swap(&mut state, swap).unwrap_err();
    let reader = x.release(&mut state);
    assert!(writer.finish_swap(&mut state, swap).is_ok());

    let x = reader.read(&mut state);
    assert_eq!(*x.get(&state), 1);
    let reader = x.release(&mut state);

    writer.swap(&mut state);

    let x = reader.read(&mut state);
    assert_eq!(*x.get(&state), 0);
    assert_eq!(*x.get(&state), *writer.split(&state).read);
}

#[test]
fn basic_swap_shows_the_other_cell() {
    let mut state = DoubleBufferData::new(0, 1, FlashStrategy::new_blocking());
    let mut writer = Writer::new(&mut state);
    let reader = writer.reader(&mut state);

    let guard = reader.read(&mut state);
    assert_eq!(*guard.get(&state), 0);
    assert_eq!(*writer.split(&state).write, 1);
    let reader = guard.release(&mut state);

    writer.swap(&mut state);

    let guard = reader.read(&mut state);
    assert_eq!(*guard.get(&state), 1);
    assert_eq!(*writer.split(&state).write, 0);
}

#[test]
fn swap_with_live_reader_waits_for_the_guard() {
    let mut state = DoubleBufferData::new(10, 300, FlashStrategy::new_blocking());
    let mut writer = Writer::new(&mut state);
    let reader = writer.reader(&mut state);

    let guard = reader.read(&mut state);
    assert_eq!(*guard.get(&state), 10);

    let mut swap = writer.try_start_swap(&mut state).unwrap();
    assert!(!writer.is_swap_finished(&mut state, &mut swap));
    assert_eq!(*writer.split(&state).write, 10);

    let reader = guard.release(&mut state);
    assert!(writer.is_swap_finished(&mut state, &mut swap));
    assert!(writer.finish_swap(&mut state, swap).is_ok());

    let guard = reader.read(&mut state);
    assert_eq!(*guard.get(&state), 300);
}

#[test]
fn finish_swap_without_readers_does_not_wait() {
    let mut state = DoubleBufferData::new(0, 1, FlashStrategy::new_blocking());
    let mut writer = Writer::new(&mut state);
    let swap = writer.try_start_swap(&mut state).unwrap();
    assert!(writer.finish_swap(&mut state, swap).is_ok());
    assert_eq!(*writer.get(&state), 0);
}

#[test]
fn two_swaps_without_readers_restore_the_cells() {
    let mut state = DoubleBufferData::new(7, 9, FlashStrategy::new_blocking());
    let mut writer = Writer::new(&mut state);
    assert_eq!(*writer.split(&state).read, 7);
    assert_eq!(*writer.split(&state).write, 9);
    writer.swap(&mut state);
    assert_eq!(*writer.split(&state).read, 9);
    assert_eq!(*writer.split(&state).write, 7);
    writer.swap(&mut state);
    assert_eq!(*writer.split(&state).read, 7);
    assert_eq!(*writer.split(&state).write, 9);
}

#[test]
fn fresh_reader_after_a_swap_sees_what_was_written() {
    let mut state = DoubleBufferData::new(0, 1, FlashStrategy::new_blocking());
    let mut writer = Writer::new(&mut state);
    *writer.get_mut(&mut state) = 5;
    let _swap = writer.try_start_swap(&mut state).unwrap();
    let fresh = writer.reader(&mut state);
    let guard = fresh.read(&mut state);
    assert_eq!(*guard.get(&state), 5);
}

#[test]
fn reader_created_before_a_swap_reads_the_new_cell_afterwards() {
    let mut state = DoubleBufferData::new(0, 1, FlashStrategy::new_blocking());
    let mut writer = Writer::new(&mut state);
    let seen = writer.reader(&mut state);
    let mut swap = writer.try_start_swap(&mut state).unwrap();
    // it held no guard, so the swap does not wait for it
    assert!(writer.is_swap_finished(&mut state, &mut swap));
    let unseen = writer.reader(&mut state);
    let a = seen.read(&mut state);
    let b = unseen.read(&mut state);
    assert_eq!(*a.get(&state), 1);
    assert_eq!(*b.get(&state), 1);
    assert!(writer.is_swap_finished(&mut state, &mut swap));
}

#[test]
fn many_readers_are_all_waited_for() {
    let mut state = DoubleBufferData::new(0, 1, FlashStrategy::new_blocking());
    let mut writer = Writer::new(&mut state);
    let mut guards = Vec::new();
    for _ in 0..100 {
        let reader = writer.reader(&mut state);
        guards.push(reader.read(&mut state));
    }
    let mut swap = writer.try_start_swap(&mut state).unwrap();
    while let Some(guard) = guards.pop() {
        assert!(!writer.is_swap_finished(&mut state, &mut swap));
        let _ = guard.release(&mut state);
    }
    assert!(writer.is_swap_finished(&mut state, &mut swap));
}

#[test]
fn swap_stays_finished_while_readers_come_and_go() {
    let mut state = DoubleBufferData::new(0, 1, FlashStrategy::new_blocking());
    let mut writer = Writer::new(&mut state);
    let reader = writer.reader(&mut state);
    let mut swap = writer.try_start_swap(&mut state).unwrap();
    assert!(writer.is_swap_finished(&mut state, &mut swap));
    let guard = reader.read(&mut state);
    assert!(writer.is_swap_finished(&mut state, &mut swap));
    let _reader = guard.release(&mut state);
    assert!(writer.is_swap_finished(&mut state, &mut swap));
}

#[test]
fn guard_projections_see_the_pinned_value() {
    let mut state = DoubleBufferData::with_extras((1, 2), (3, 4), FlashStrategy::new_blocking(), 9);
    let writer = Writer::new(&mut state);
    let reader = writer.reader(&mut state);
    let guard = reader.read(&mut state);
    assert_eq!(*guard.map(&state, |pair| &pair.1), 2);
    assert_eq!(guard.try_map(&state, |pair| Ok::<_, ()>(&pair.0)), Ok(&1));
    assert_eq!(guard.try_map(&state, |_| Err::<&i32, _>("no")), Err("no"));
    assert_eq!(*guard.map_with_extras(&state, |_, extras| extras), 9);
    assert_eq!(
        guard.try_map_with_extras(&state, |pair, _| Ok::<_, ()>(&pair.0)),
        Ok(&1)
    );
    assert_eq!(*guard.extras(&state), 9);
    assert_eq!(*writer.extras(&state), 9);
}

#[test]
fn try_read_hands_back_the_upgrade_error() {
    let mut state = DoubleBufferData::new(0, 1, FlashStrategy::new_blocking());
    let writer = Writer::new(&mut state);
    let reader = writer.reader(&mut state);
    let (reader, error) = match reader.try_read(Err::<&mut DoubleBufferData<i32, _>, _>("gone")) {
        Ok(_) => panic!("there is nothing to read"),
        Err(back) => back,
    };
    assert_eq!(error, "gone");
    let guard = reader.try_read(Ok::<_, &str>(&mut state)).ok().unwrap();
    assert_eq!(*guard.get(&state), 0);
}

#[test]
fn async_cancellation_keeps_the_swap() {
    let mut state = DoubleBufferData::new(0, 1, FlashStrategy::new_async());
    let writer = Writer::new(&mut state);
    let mut writer = DelayWriter::from_writer(writer);
    let reader = writer.as_writer().reader(&mut state);
    let guard = reader.read(&mut state);

    writer.start_swap(&mut state);

    let (first, waker) = counting_waker();
    let mut cx = Context::from_waker(&waker);
    assert_eq!(writer.afinish_swap(&mut state, &mut cx), Poll::Pending);
    // the first attempt is given up; the swap is still under way
    assert!(writer.has_swap());

    let (second, waker) = counting_waker();
    let mut cx = Context::from_waker(&waker);
    assert_eq!(writer.afinish_swap(&mut state, &mut cx), Poll::Pending);

    let _reader = guard.release(&mut state);
    assert_eq!(first.wakes.load(Ordering::SeqCst), 0);
    assert_eq!(second.wakes.load(Ordering::SeqCst), 1);

    assert_eq!(writer.afinish_swap(&mut state, &mut cx), Poll::Ready(()));
    assert!(!writer.has_swap());
    assert_eq!(*writer.get_writer_mut(&mut state).unwrap().get(&state), 0);
}

#[test]
fn blocking_finish_arms_the_thread_token_and_the_last_reader_wakes() {
    let mut strategy = FlashStrategy::new_blocking();
    let mut writer = strategy.create_writer_id();
    let mut a = strategy.create_reader_id_from_writer(&writer);
    let mut b = strategy.create_reader_id_from_writer(&writer);
    let ga = strategy.acquire_read_guard(&mut a);
    let gb = strategy.acquire_read_guard(&mut b);
    let swap = strategy.try_start_swap(&mut writer).unwrap();
    let mut swap = strategy.finish_swap(&mut writer, swap).unwrap_err();
    strategy.release_read_guard(&mut a, ga);
    assert!(!strategy.is_swap_finished(&mut writer, &mut swap));
    strategy.release_read_guard(&mut b, gb);
    assert!(strategy.is_swap_finished(&mut writer, &mut swap));
    assert!(strategy.finish_swap(&mut writer, swap).is_ok());
}

#[test]
fn words_of_readers_that_have_gone_are_retired_by_a_swap_and_serve_again() {
    let mut state = DoubleBufferData::new(0, 1, FlashStrategy::new_blocking());
    let mut writer = Writer::new(&mut state);
    let a = writer.reader(&mut state);
    let b = writer.reader(&mut state);
    assert_eq!(state.strategy.slot_count(), 2);
    a.retire(&mut state);
    // no swap has come by: the word is not retired yet
    let c = writer.reader(&mut state);
    assert_eq!(state.strategy.slot_count(), 3);
    writer.swap(&mut state);
    let d = writer.reader(&mut state);
    assert_eq!(state.strategy.slot_count(), 3);
    let e = writer.reader(&mut state);
    assert_eq!(state.strategy.slot_count(), 4);

    let guards = vec![
        b.read(&mut state),
        c.read(&mut state),
        d.read(&mut state),
        e.read(&mut state),
    ];
    let mut swap = writer.try_start_swap(&mut state).unwrap();
    for guard in guards {
        assert_eq!(*guard.get(&state), 1);
        assert!(!writer.is_swap_finished(&mut state, &mut swap));
        let _ = guard.release(&mut state);
    }
    assert!(writer.is_swap_finished(&mut state, &mut swap));
}

#[test]
fn a_reader_has_one_guard_at_a_time_and_gets_itself_back() {
    let mut state = DoubleBufferData::new(0, 1, FlashStrategy::new_blocking());
    let mut writer = Writer::new(&mut state);
    let reader = writer.reader(&mut state);
    // the reader is inside its guard until the guard is given back
    let guard = reader.read(&mut state);
    let reader = guard.release(&mut state);
    let guard = reader.read(&mut state);
    let _reader = guard.release(&mut state);
    // no guard is left behind
    let mut swap = writer.try_start_swap(&mut state).unwrap();
    assert!(writer.is_swap_finished(&mut state, &mut swap));
}
