use dbuf::ext::std_arc::ArcUpgradeError;
use dbuf::ext::std_rc::RcUpgradeError;
use dbuf::perf::{thread_range_len, total_ops, ConfigEntry, ConfigEntryOdds};
use dbuf::strategy::atomic::park_token as atomic_token;
use dbuf::strategy::flash_park_token::{
    AdaptiveParkToken, AsyncParkToken, Parker, ThreadParkToken,
};
use std::sync::atomic::{AtomicUsize, Ordering};
use std::sync::Arc;
use std::task::{Context, Wake, Waker};

struct CountingWaker {
    wakes: AtomicUsize,
}

impl Wake for CountingWaker {
    fn wake(self: Arc<Self>) {
        self.wakes.fetch_add(1, Ordering::SeqCst);
    }
}

fn counter() -> Arc<CountingWaker> {
    Arc::new(CountingWaker {
        wakes: AtomicUsize::new(0),
    })
}

#[test]
fn thread_token_records_the_unpark_that_is_due() {
    let mut token = ThreadParkToken::new();
    token.wake();
    assert!(!token.take_unpark());
    token.set();
    token.set();
    token.wake();
    token.wake();
    assert!(token.take_unpark());
    assert!(!token.take_unpark());
    token.set();
    token.clear();
    token.wake();
    assert!(!token.take_unpark());
}

#[test]
fn async_token_wakes_the_last_waker_once() {
    let first = counter();
    let second = counter();
    let mut token = AsyncParkToken::new();
    token.wake();
    let waker = Waker::from(first.clone());
    token.set(&mut Context::from_waker(&waker));
    let waker = Waker::from(second.clone());
    token.set(&mut Context::from_waker(&waker));
    token.wake();
    token.wake();
    assert_eq!(first.wakes.load(Ordering::SeqCst), 0);
    assert_eq!(second.wakes.load(Ordering::SeqCst), 1);
    token.set(&mut Context::from_waker(&waker));
    token.clear();
    token.wake();
    assert_eq!(second.wakes.load(Ordering::SeqCst), 1);
}

#[test]
fn adaptive_token_wakes_both() {
    let count = counter();
    let waker = Waker::from(count.clone());
    let mut token = AdaptiveParkToken::fresh();
    token.thread_token.set();
    token.async_token.set(&mut Context::from_waker(&waker));
    token.wake();
    assert!(token.thread_token.take_unpark());
    assert_eq!(count.wakes.load(Ordering::SeqCst), 1);
}

#[test]
fn atomic_async_token_wakes_the_last_waker_once() {
    let first = counter();
    let second = counter();
    let mut token = atomic_token::AsyncParkToken::new();
    atomic_token::Parker::wake(&mut token);
    let waker = Waker::from(first.clone());
    token.set(&mut Context::from_waker(&waker));
    let waker = Waker::from(second.clone());
    token.set(&mut Context::from_waker(&waker));
    atomic_token::Parker::wake(&mut token);
    atomic_token::Parker::wake(&mut token);
    assert_eq!(first.wakes.load(Ordering::SeqCst), 0);
    assert_eq!(second.wakes.load(Ordering::SeqCst), 1);
    token.set(&mut Context::from_waker(&waker));
    token.clear();
    atomic_token::Parker::wake(&mut token);
    assert_eq!(second.wakes.load(Ordering::SeqCst), 1);
}

#[test]
fn atomic_thread_token_records_the_notification() {
    let mut token = atomic_token::ThreadParkToken::new();
    assert!(!token.take_notify());
    atomic_token::Parker::wake(&mut token);
    assert!(token.take_notify());
    assert!(!token.take_notify());
    let mut both = atomic_token::AdaptiveParkToken::new();
    atomic_token::Parker::wake(&mut both);
    assert!(both.thread_token.take_notify());
    let mut unit = ();
    atomic_token::Parker::wake(&mut unit);
}

#[test]
fn upgrade_errors_say_what_happened() {
    assert_eq!(
        ArcUpgradeError.message(),
        "Cannot upgrade a dangling weak to an Rc"
    );
    assert_eq!(
        RcUpgradeError.message(),
        "Cannot upgrade a dangling weak to an Rc"
    );
    assert!(ArcUpgradeError == ArcUpgradeError);
}

fn entry(ops: u32, odds: ConfigEntryOdds) -> ConfigEntry {
    ConfigEntry {
        name: String::from("group"),
        num_threads: 2,
        ops,
        odds,
    }
}

fn odds(reads: u32, inserts: u32, syncs: u32) -> ConfigEntryOdds {
    ConfigEntryOdds {
        reads,
        reads_failed: 0,
        inserts,
        inserts_new: 0,
        deletes: 0,
        deletes_failed: 0,
        syncs,
    }
}

#[test]
fn odds_and_operations_are_summed_with_care() {
    assert_eq!(odds(1, 2, 3).total(), Some(6));
    assert_eq!(odds(u32::MAX, 0, 0).total(), Some(u32::MAX));
    assert_eq!(odds(u32::MAX, 1, 0).total(), None);
    assert_eq!(odds(1, 0, u32::MAX).total(), None);

    let config = vec![entry(10, odds(1, 0, 0)), entry(5, odds(1, 1, 0))];
    assert_eq!(total_ops(&config), Some(15));
    assert_eq!(total_ops(&Vec::new()), Some(0));
    let config = vec![entry(u32::MAX, odds(1, 0, 0)), entry(1, odds(1, 1, 0))];
    assert_eq!(total_ops(&config), None);
    assert_eq!(thread_range_len(15), 286331153);
    assert_eq!(thread_range_len(1), u32::MAX);
}

#[test]
fn only_groups_that_write_go_through_the_writer() {
    assert!(!entry(10, odds(1, 0, 0)).use_writer());
    assert!(entry(10, odds(1, 1, 0)).use_writer());
    assert!(entry(10, odds(0, 0, 1)).use_writer());
    assert!(!entry(0, odds(1, 1, 1)).use_writer());
}
