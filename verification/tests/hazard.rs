use dbuf::interface::Strategy;
use dbuf::raw::{DoubleBufferData, Writer};
use dbuf::strategy::hazad_flash::HazardFlashStrategy;
use dbuf::strategy::hazard::Hazard;

fn assert_no_dups<const N: usize>(mut ts: [usize; N]) {
    ts.sort_unstable();
    assert!(ts.windows(2).all(|x| x[0] != x[1]));
}

#[test]
fn test_basic() {
    let mut hazard = Hazard::<i32, 4>::new();

    let a = hazard.get_or_insert_with(|| 0);
    let b = hazard.get_or_insert_with(|| panic!());
    let c = hazard.get_or_insert_with(|| panic!());
    let d = hazard.get_or_insert_with(|| panic!());

    assert_no_dups([a.node(), b.node(), c.node(), d.node()]);

    let e = hazard.get_or_insert_with(|| 1);

    assert_no_dups([a.node(), b.node(), c.node(), d.node(), e.node()]);

    assert_eq!(*a.as_ref(&hazard), 0);
    assert_eq!(*b.as_ref(&hazard), 0);
    assert_eq!(*c.as_ref(&hazard), 0);
    assert_eq!(*d.as_ref(&hazard), 0);
    assert_eq!(*e.as_ref(&hazard), 1);

    { b }.release_if_locked(&mut hazard);
    let f = hazard.get_or_insert_with(|| panic!());
    let g = hazard.get_or_insert_with(|| panic!());
    let h = hazard.get_or_insert_with(|| panic!());
    let i = hazard.get_or_insert_with(|| panic!());

    assert_eq!(*a.as_ref(&hazard), 0);
    assert_eq!(*c.as_ref(&hazard), 0);
    assert_eq!(*d.as_ref(&hazard), 0);
    assert_eq!(*e.as_ref(&hazard), 1);
    assert_eq!(*f.as_ref(&hazard), 1);
    assert_eq!(*g.as_ref(&hazard), 1);
    assert_eq!(*h.as_ref(&hazard), 1);
    assert_eq!(*i.as_ref(&hazard), 0);

    { a }.release_if_locked(&mut hazard);
    { c }.release_if_locked(&mut hazard);
    { d }.release_if_locked(&mut hazard);

    let j = hazard.get_or_insert_with(|| panic!());
    let k = hazard.get_or_insert_with(|| panic!());
    let l = hazard.get_or_insert_with(|| panic!());

    assert_eq!(*e.as_ref(&hazard), 1);
    assert_eq!(*f.as_ref(&hazard), 1);
    assert_eq!(*g.as_ref(&hazard), 1);
    assert_eq!(*h.as_ref(&hazard), 1);
    assert_eq!(*i.as_ref(&hazard), 0);
    assert_eq!(*j.as_ref(&hazard), 0);
    assert_eq!(*k.as_ref(&hazard), 0);
    assert_eq!(*l.as_ref(&hazard), 0);
}

#[test]
fn test_reuse_and_chunk_count() {
    let mut hazard = Hazard::<u8, 1>::new();

    assert_eq!(hazard.chunks(), 0);

    let mut node = hazard.get_or_insert_with(|| 0);

    assert_eq!(hazard.chunks(), 1);

    node.release(&mut hazard);

    // the node above got reused
    let mut node2 = hazard.get_or_insert_with(|| panic!());

    assert!(!node.try_acquire(&mut hazard));

    node2.release(&mut hazard);

    assert!(node.try_acquire(&mut hazard));

    assert_eq!(hazard.chunks(), 1);

    let _node2 = hazard.get_or_insert_with(|| 1);

    assert_eq!(hazard.chunks(), 2);
}

#[test]
fn the_newest_chunk_is_searched_first_and_from_its_front() {
    let mut hazard = Hazard::<u32, 2>::new();
    let mut counter = 0;
    let mut a = hazard.get_or_insert_with(|| {
        counter += 1;
        counter
    });
    let mut b = hazard.get_or_insert_with(|| 0);
    let c = hazard.get_or_insert_with(|| 7);
    assert_eq!((a.node(), b.node(), c.node()), (0, 1, 2));
    assert_eq!(hazard.nodes(), 4);
    assert_eq!(*hazard.value(0), 1);
    assert_eq!(*hazard.value(1), 2);
    assert_eq!(*hazard.value(3), 7);
    a.release(&mut hazard);
    b.release(&mut hazard);
    assert!(a.released());
    // node 3, in the newest chunk, comes before the free nodes of the older one
    let d = hazard.get_or_insert_with(|| 0);
    assert_eq!(d.node(), 3);
    let e = hazard.get_or_insert_with(|| 0);
    assert_eq!(e.node(), 0);
    *hazard.value_mut(0) = 40;
    assert_eq!(*e.as_ref(&hazard), 40);
}

#[test]
fn iter_visits_every_node_locked_or_not() {
    let mut hazard = Hazard::<u32, 3>::new();
    let _a = hazard.get_or_insert_with(|| 5);
    let mut iter = hazard.iter();
    let mut seen = Vec::new();
    while let Some(value) = iter.next() {
        seen.push(*value);
    }
    assert_eq!(seen, vec![5, 5, 5]);
}

#[test]
fn hazard_flash_smoke() {
    let mut state = DoubleBufferData::new(0, 1, HazardFlashStrategy::new_blocking());
    let mut writer = Writer::new(&mut state);

    let reader = writer.reader(&mut state);

    let x = reader.read(&mut state);
    assert_eq!(*x.get(&state), *writer.split(&state).read);

    let mut swap = writer.try_start_swap(&mut state).unwrap();

    assert!(!writer.is_swap_finished(&mut state, &mut swap));

    assert_eq!(*x.get(&state), *writer.split(&state).write);

    let reader = x.release(&mut state);

    assert!(writer.is_swap_finished(&mut state, &mut swap));

    assert!(writer.finish_swap(&mut state, swap).is_ok());

    let x = reader.read(&mut state);
    assert_eq!(*x.get(&state), 1);
}

#[test]
fn hazard_flash_nodes_serve_new_readers_when_their_reader_has_gone() {
    let mut strategy = HazardFlashStrategy::new_blocking();
    let mut writer = strategy.create_writer_id();
    let mut readers = Vec::new();
    for _ in 0..4 {
        readers.push(strategy.create_reader_id_from_writer(&writer));
    }
    // one chunk serves four readers; when one goes, its node serves the fifth
    strategy.drop_reader_id(readers.pop().unwrap());
    let mut fifth = strategy.create_reader_id_from_writer(&writer);
    let mut first = readers.remove(0);
    let held = strategy.acquire_read_guard(&mut first);
    let guard = strategy.acquire_read_guard(&mut fifth);
    assert!(!strategy.is_swapped(&fifth, &guard));
    let mut swap = strategy.try_start_swap(&mut writer).unwrap();
    assert!(!strategy.is_swap_finished(&mut writer, &mut swap));
    strategy.release_read_guard(&mut fifth, guard);
    assert!(!strategy.is_swap_finished(&mut writer, &mut swap));
    strategy.release_read_guard(&mut first, held);
    assert!(strategy.is_swap_finished(&mut writer, &mut swap));
    // a reader without a node takes one when it first reads
    let mut late = HazardFlashStrategy::<dbuf::strategy::flash_park_token::ThreadParkToken>::create_invalid_reader_id();
    let guard = strategy.acquire_read_guard(&mut late);
    assert!(strategy.is_swapped(&late, &guard));
    strategy.release_read_guard(&mut late, guard);
}
