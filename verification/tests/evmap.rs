use dbuf::delay::DelayWriter;
use dbuf::raw::{DoubleBufferData, Reader, Writer};
use dbuf::strategy::evmap::EvMapStrategy;
use dbuf::strategy::hazard_evmap::HazardEvMapStrategy;

fn read_once<S: dbuf::interface::Strategy>(
    reader: Reader<S>,
    data: &mut DoubleBufferData<i32, S>,
) -> (i32, Reader<S>) {
    let guard = reader.read(data);
    let value = *guard.get(data);
    (value, guard.release(data))
}

#[test]
fn test_smoke() {
    let mut state = DoubleBufferData::new(0, 1, EvMapStrategy::new());
    let mut writer = Writer::new(&mut state);

    let reader = writer.reader(&mut state);

    let x = reader.read(&mut state);
    assert_eq!(*x.get(&state), *writer.split(&state).read);

    let mut swap = writer.try_start_swap(&mut state).unwrap();

    assert!(!writer.is_swap_finished(&mut state, &mut swap));

    assert_eq!(*x.get(&state), *writer.split(&state).write);

    let _reader = x.release(&mut state);

    assert!(writer.is_swap_finished(&mut state, &mut swap));

    assert!(writer.finish_swap(&mut state, swap).is_ok());
}

#[test]
fn test_test_issue_1() {
    let mut data = DoubleBufferData::new(1, 2, EvMapStrategy::new());

    let writer = Writer::new(&mut data);
    let mut writer = DelayWriter::from_writer(writer);

    let reader1 = writer.as_writer().reader(&mut data);
    let (value, reader1) = read_once(reader1, &mut data);
    assert_eq!(value, 1);

    writer.start_swap(&mut data);
    assert!(writer.finish_swap(&mut data).is_some());

    let reader2 = writer.as_writer().reader(&mut data);
    let reader3 = reader1.clone(Ok::<_, ()>(&mut data));
    let (value, reader1) = read_once(reader1, &mut data);
    assert_eq!(value, 2);
    let (value, reader2) = read_once(reader2, &mut data);
    assert_eq!(value, 2);
    let (value, reader3) = read_once(reader3, &mut data);
    assert_eq!(value, 2);

    let guard = reader2.read(&mut data);

    assert_eq!(*guard.get(&data), 2);

    *writer.get_writer_mut(&mut data).unwrap().get_mut(&mut data) = 3;

    assert_eq!(*guard.get(&data), 2);
    let reader2 = guard.release(&mut data);

    let (value, _) = read_once(reader1, &mut data);
    assert_eq!(value, 2);
    let (value, _) = read_once(reader2, &mut data);
    assert_eq!(value, 2);
    let (value, _) = read_once(reader3, &mut data);
    assert_eq!(value, 2);
}

#[test]
fn reader_cloned_from_a_reader_sees_what_it_sees() {
    let mut data = DoubleBufferData::new(1, 2, EvMapStrategy::new());
    let mut writer = Writer::new(&mut data);
    let r1 = writer.reader(&mut data);
    let (value, r1) = read_once(r1, &mut data);
    assert_eq!(value, 1);
    writer.swap(&mut data);
    let (value, r1) = read_once(r1, &mut data);
    assert_eq!(value, 2);
    let r2 = r1.clone(Ok::<_, ()>(&mut data));
    let (value, r2) = read_once(r2, &mut data);
    assert_eq!(value, 2);
    *writer.get_mut(&mut data) = 3;
    let (value, _) = read_once(r1, &mut data);
    assert_eq!(value, 2);
    let (value, _) = read_once(r2, &mut data);
    assert_eq!(value, 2);
}

#[test]
fn swap_remembers_the_reader_it_waits_for() {
    let mut data = DoubleBufferData::new(0, 1, EvMapStrategy::new());
    let mut writer = Writer::new(&mut data);
    let idle = writer.reader(&mut data);
    let busy = writer.reader(&mut data);
    let late = writer.reader(&mut data);
    let guard = busy.read(&mut data);
    let mut swap = writer.try_start_swap(&mut data).unwrap();
    assert!(!writer.is_swap_finished(&mut data, &mut swap));
    // readers that come after the swap began are not waited for
    let after = late.read(&mut data);
    assert_eq!(*after.get(&data), 1);
    let also = idle.read(&mut data);
    assert_eq!(*also.get(&data), 1);
    assert!(!writer.is_swap_finished(&mut data, &mut swap));
    let swap = writer.finish_swap(&mut data, swap).unwrap_err();
    let _ = guard.release(&mut data);
    assert!(writer.finish_swap(&mut data, swap).is_ok());
    assert_eq!(*writer.get(&data), 0);
}

#[test]
fn clone_without_a_payload_gives_a_reader_all_the_same() {
    let mut data = DoubleBufferData::new(0, 1, EvMapStrategy::new());
    let writer = Writer::new(&mut data);
    let reader = writer.reader(&mut data);
    let _placeholder = reader.clone(Err::<&mut DoubleBufferData<i32, EvMapStrategy>, _>(()));
}

#[test]
fn hazard_evmap_smoke() {
    let mut state = DoubleBufferData::new(0, 1, HazardEvMapStrategy::new_blocking());
    let mut writer = Writer::new(&mut state);

    let reader = writer.reader(&mut state);

    let x = reader.read(&mut state);
    assert_eq!(*x.get(&state), *writer.split(&state).read);

    let mut swap = writer.try_start_swap(&mut state).unwrap();

    assert!(!writer.is_swap_finished(&mut state, &mut swap));

    assert_eq!(*x.get(&state), *writer.split(&state).write);

    let _reader = x.release(&mut state);

    assert!(writer.is_swap_finished(&mut state, &mut swap));

    assert!(writer.finish_swap(&mut state, swap).is_ok());
}

#[test]
fn hazard_evmap_reader_comes_back_to_its_node_or_takes_another() {
    let mut state = DoubleBufferData::new(0, 1, HazardEvMapStrategy::new_blocking());
    let mut writer = Writer::new(&mut state);
    let first = writer.reader(&mut state);
    let (value, first) = read_once(first, &mut state);
    assert_eq!(value, 0);
    // the node of `first` is free now and serves the new reader
    let second = writer.reader(&mut state);
    let held = second.read(&mut state);
    let again = first.read(&mut state);
    assert_eq!(*again.get(&state), 0);
    let mut swap = writer.try_start_swap(&mut state).unwrap();
    assert!(!writer.is_swap_finished(&mut state, &mut swap));
    let _ = held.release(&mut state);
    assert!(!writer.is_swap_finished(&mut state, &mut swap));
    let _ = again.release(&mut state);
    assert!(writer.is_swap_finished(&mut state, &mut swap));
}

#[test]
fn epochs_of_readers_that_have_gone_are_retired_by_a_swap_and_serve_again() {
    let mut state = DoubleBufferData::new(0, 1, EvMapStrategy::new());
    let mut writer = Writer::new(&mut state);
    let a = writer.reader(&mut state);
    let b = writer.reader(&mut state);
    let (_, a) = read_once(a, &mut state);
    a.retire(&mut state);
    let c = writer.reader(&mut state);
    assert_eq!(state.strategy.slot_count(), 3);
    writer.swap(&mut state);
    let d = writer.reader(&mut state);
    assert_eq!(state.strategy.slot_count(), 3);

    let held = d.read(&mut state);
    assert_eq!(*held.get(&state), 1);
    let mut swap = writer.try_start_swap(&mut state).unwrap();
    let (value, _) = read_once(b, &mut state);
    assert_eq!(value, 0);
    let (value, _) = read_once(c, &mut state);
    assert_eq!(value, 0);
    assert!(!writer.is_swap_finished(&mut state, &mut swap));
    let _ = held.release(&mut state);
    assert!(writer.is_swap_finished(&mut state, &mut swap));
}
