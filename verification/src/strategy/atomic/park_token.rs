//! The tokens of the counter strategies.
//!
//! The thread token stands for a condition variable: since nothing can wait
//! on it from here, waking records that a notification is due and the
//! caller performs it. The async token keeps the waker of the writer's task
//! in an `AtomicWaker`, to which it has exclusive access.
use vstd::prelude::*;
use core::task::{Context, Waker};
use atomic_waker::AtomicWaker;
use crate::strategy::flash_park_token::{wake_task, waker_of};

verus! {

/// `atomic_waker::AtomicWaker`, a cell for at most one waker. What is known
/// of a cell is whether a waker is stored in it.
#[verifier::external_type_specification]
#[verifier::external_body]
pub struct ExAtomicWaker(AtomicWaker);

/// Whether a waker is stored in the cell: whether `register` was called
/// and neither `take` nor `wake` since.
pub uninterp spec fn registered(cell: AtomicWaker) -> bool;

/// A new cell, by `AtomicWaker::new`: no waker is stored in it.
#[verifier::external_body]
fn new_cell() -> (cell: AtomicWaker)
    ensures
        !registered(cell),
{
    AtomicWaker::new()
}

/// Stores a waker in the cell by `AtomicWaker::register`, in place of the
/// one stored before. With exclusive access no wake-up runs at the same
/// time, so the waker is stored and not woken at once.
#[verifier::external_body]
fn register_waker(cell: &mut AtomicWaker, waker: &Waker)
    ensures
        registered(*final(cell)),
{
    cell.register(waker)
}

/// Takes the stored waker out of the cell by `AtomicWaker::take`. With
/// exclusive access nothing runs at the same time, so the waker comes back
/// exactly when one is stored, and none is stored afterwards.
#[verifier::external_body]
fn take_waker(cell: &mut AtomicWaker) -> (waker: Option<Waker>)
    ensures
        waker is Some <==> registered(*old(cell)),
        !registered(*final(cell)),
{
    cell.take()
}

/// The writer's thread, waiting on a condition.
#[derive(Default)]
pub struct ThreadParkToken {
    notify: bool,
}

/// The waker of the writer's task.
pub struct AsyncParkToken(AtomicWaker);

/// A thread token and an async token; waking wakes both.
pub struct AdaptiveParkToken {
    pub thread_token: ThreadParkToken,
    pub async_token: AsyncParkToken,
}

/// Keeps [`Parker`] from being implemented elsewhere.
pub trait Seal {

}

/// A token that wakes the writer. It only abstracts over `()`,
/// [`ThreadParkToken`], [`AsyncParkToken`] and [`AdaptiveParkToken`].
pub trait Parker: Sized + Seal {
    /// A registration is stored.
    spec fn waiting(&self) -> bool;

    /// Exact effect of [`Parker::wake`].
    spec fn woken(pre: &Self, post: &Self) -> bool;

    /// A token without a registration.
    fn fresh() -> (token: Self)
        ensures
            !token.waiting(),
    ;

    /// Wakes what is registered, if anything is, and forgets it.
    fn wake(&mut self)
        ensures
            !final(self).waiting(),
            Self::woken(old(self), final(self)),
    ;
}

impl Seal for () {

}

impl Parker for () {
    open spec fn waiting(&self) -> bool {
        false
    }

    open spec fn woken(pre: &Self, post: &Self) -> bool {
        true
    }

    fn fresh() -> (token: Self) {
        ()
    }

    fn wake(&mut self) {
    }
}

impl Seal for ThreadParkToken {

}

impl ThreadParkToken {
    /// A wake-up has happened and the notification has not been taken yet.
    pub closed spec fn notify_due(&self) -> bool {
        self.notify
    }

    pub fn new() -> (token: Self)
        ensures
            !token.notify_due(),
    {
        Self { notify: false }
    }

    /// Whether a notification is due; it is then no longer.
    pub fn take_notify(&mut self) -> (due: bool)
        ensures
            due == old(self).notify_due(),
            !final(self).notify_due(),
    {
        let due = self.notify;
        self.notify = false;
        due
    }
}

impl Parker for ThreadParkToken {
    /// Nothing is stored in this token: whoever waits, waits on the condition.
    open spec fn waiting(&self) -> bool {
        false
    }

    open spec fn woken(pre: &Self, post: &Self) -> bool {
        post.notify_due()
    }

    /// A token for which no notification is due.
    fn fresh() -> (token: Self)
        ensures
            !token.notify_due(),
    {
        Self::new()
    }

    fn wake(&mut self) {
        self.notify = true;
    }
}

impl Seal for AsyncParkToken {

}

impl AsyncParkToken {
    /// A waker is registered.
    pub closed spec fn is_waiting(&self) -> bool {
        registered(self.0)
    }

    pub fn new() -> (token: Self)
        ensures
            !token.is_waiting(),
    {
        Self(new_cell())
    }

    /// Registers the waker of `ctx`, in place of any earlier registration.
    pub fn set(&mut self, ctx: &mut Context<'_>)
        ensures
            final(self).is_waiting(),
    {
        register_waker(&mut self.0, waker_of(ctx))
    }

    /// Forgets the registration.
    pub fn clear(&mut self)
        ensures
            !final(self).is_waiting(),
    {
        let _ = take_waker(&mut self.0);
    }
}

impl Parker for AsyncParkToken {
    open spec fn waiting(&self) -> bool {
        self.is_waiting()
    }

    open spec fn woken(pre: &Self, post: &Self) -> bool {
        !post.is_waiting()
    }

    fn fresh() -> (token: Self) {
        Self::new()
    }

    fn wake(&mut self) {
        if let Some(waker) = take_waker(&mut self.0) {
            wake_task(waker)
        }
    }
}

impl Seal for AdaptiveParkToken {

}

impl AdaptiveParkToken {
    pub fn new() -> (token: Self)
        ensures
            !token.thread_token.notify_due(),
            !token.async_token.is_waiting(),
    {
        Self { thread_token: ThreadParkToken::new(), async_token: AsyncParkToken::new() }
    }
}

impl Parker for AdaptiveParkToken {
    open spec fn waiting(&self) -> bool {
        self.async_token.is_waiting()
    }

    open spec fn woken(pre: &Self, post: &Self) -> bool {
        &&& ThreadParkToken::woken(&pre.thread_token, &post.thread_token)
        &&& AsyncParkToken::woken(&pre.async_token, &post.async_token)
    }

    fn fresh() -> (token: Self) {
        Self::new()
    }

    fn wake(&mut self) {
        self.thread_token.wake();
        self.async_token.wake();
    }
}

} // verus!
