//! The tokens through which the last reader of a retired cell wakes the
//! writer.
//!
//! A token holds at most one registration of the writer. The thread token
//! registers the writer's thread: since the thread itself cannot be unparked
//! from here, waking records that an unpark is due and the caller performs
//! it. The async token registers a task's waker and wakes it itself.
use vstd::prelude::*;
use core::task::{Context, Waker};

verus! {

/// `core::task::Waker`, the handle by which a task is woken. It is only
/// kept and handed on; nothing is said of what is in it.
#[verifier::external_type_specification]
#[verifier::external_body]
pub struct ExWaker(Waker);

/// The waker of a task's context, by `Context::waker`. Nothing is claimed of
/// the waker.
#[verifier::external_body]
pub(crate) fn waker_of<'a>(ctx: &'a Context<'_>) -> &'a Waker {
    ctx.waker()
}

/// A copy of a waker, by the waker's `clone`. Nothing is claimed of the copy.
#[verifier::external_body]
pub(crate) fn clone_waker(waker: &Waker) -> Waker {
    waker.clone()
}

/// Wakes the task of a waker by `Waker::wake`, which consumes the waker.
/// Nothing comes back. What the task's executor does when it is woken is its
/// own affair; if it panics, the panic passes through the caller.
#[verifier::external_body]
pub(crate) fn wake_task(waker: Waker) {
    waker.wake()
}

/// The writer's thread, registered to be unparked.
#[derive(Default)]
pub struct ThreadParkToken {
    waiting: bool,
    unpark: bool,
}

/// The waker of the writer's task, registered to be woken.
#[derive(Default)]
pub struct AsyncParkToken {
    waker: Option<Waker>,
}

/// A thread token and an async token; waking wakes both.
#[derive(Default)]
pub struct AdaptiveParkToken {
    pub thread_token: ThreadParkToken,
    pub async_token: AsyncParkToken,
}

/// Keeps [`Parker`] from being implemented elsewhere.
pub trait Seal {

}

/// A token that wakes the writer. It only abstracts over
/// [`ThreadParkToken`], [`AsyncParkToken`] and [`AdaptiveParkToken`].
pub trait Parker: Sized + Seal {
    /// A registration is stored.
    spec fn waiting(&self) -> bool;

    /// Exact effect of [`Parker::wake`].
    spec fn woken(pre: &Self, post: &Self) -> bool;

    /// A token without a registration.
    fn fresh() -> (token: Self)
        ensures
            !token.waiting(),
    ;

    /// Wakes what is registered, if anything is, and forgets it.
    fn wake(&mut self)
        ensures
            !final(self).waiting(),
            Self::woken(old(self), final(self)),
    ;
}

impl Seal for ThreadParkToken {

}

impl ThreadParkToken {
    /// A thread is registered.
    pub closed spec fn is_waiting(&self) -> bool {
        self.waiting
    }

    /// A wake-up found a registration and the unpark has not been taken yet.
    pub closed spec fn unpark_due(&self) -> bool {
        self.unpark
    }

    pub fn new() -> (token: Self)
        ensures
            !token.is_waiting(),
            !token.unpark_due(),
    {
        Self { waiting: false, unpark: false }
    }

    /// Registers the calling thread, in place of any earlier registration.
    pub fn set(&mut self)
        ensures
            final(self).is_waiting(),
            final(self).unpark_due() == old(self).unpark_due(),
    {
        self.waiting = true;
    }

    /// Forgets the registration.
    pub fn clear(&mut self)
        ensures
            !final(self).is_waiting(),
            final(self).unpark_due() == old(self).unpark_due(),
    {
        self.waiting = false;
    }

    /// Whether an unpark is due; it is then no longer.
    pub fn take_unpark(&mut self) -> (due: bool)
        ensures
            due == old(self).unpark_due(),
            !final(self).unpark_due(),
            final(self).is_waiting() == old(self).is_waiting(),
    {
        let due = self.unpark;
        self.unpark = false;
        due
    }
}

impl Parker for ThreadParkToken {
    open spec fn waiting(&self) -> bool {
        self.is_waiting()
    }

    /// An unpark is due if a thread was registered or one was due already.
    open spec fn woken(pre: &Self, post: &Self) -> bool {
        &&& !post.is_waiting()
        &&& post.unpark_due() == (pre.unpark_due() || pre.is_waiting())
    }

    fn fresh() -> (token: Self) {
        Self::new()
    }

    fn wake(&mut self) {
        if self.waiting {
            self.waiting = false;
            self.unpark = true;
        }
    }
}

impl Seal for AsyncParkToken {

}

impl AsyncParkToken {
    /// A waker is registered.
    pub closed spec fn is_waiting(&self) -> bool {
        self.waker is Some
    }

    pub fn new() -> (token: Self)
        ensures
            !token.is_waiting(),
    {
        Self { waker: None }
    }

    /// Registers the waker of `ctx`, in place of any earlier registration.
    pub fn set(&mut self, ctx: &mut Context<'_>)
        ensures
            final(self).is_waiting(),
    {
        self.waker = Some(clone_waker(waker_of(ctx)));
    }

    /// Forgets the registration.
    pub fn clear(&mut self)
        ensures
            !final(self).is_waiting(),
    {
        self.waker = None;
    }
}

impl Parker for AsyncParkToken {
    open spec fn waiting(&self) -> bool {
        self.is_waiting()
    }

    open spec fn woken(pre: &Self, post: &Self) -> bool {
        !post.is_waiting()
    }

    fn fresh() -> (token: Self) {
        Self::new()
    }

    fn wake(&mut self) {
        if let Some(waker) = self.waker.take() {
            wake_task(waker)
        }
    }
}

impl Seal for AdaptiveParkToken {

}

impl AdaptiveParkToken {
    pub fn new() -> (token: Self)
        ensures
            !token.thread_token.is_waiting(),
            !token.thread_token.unpark_due(),
            !token.async_token.is_waiting(),
    {
        Self { thread_token: ThreadParkToken::new(), async_token: AsyncParkToken::new() }
    }
}

impl Parker for AdaptiveParkToken {
    open spec fn waiting(&self) -> bool {
        self.thread_token.is_waiting() || self.async_token.is_waiting()
    }

    open spec fn woken(pre: &Self, post: &Self) -> bool {
        &&& ThreadParkToken::woken(&pre.thread_token, &post.thread_token)
        &&& AsyncParkToken::woken(&pre.async_token, &post.async_token)
    }

    fn fresh() -> (token: Self) {
        Self::new()
    }

    fn wake(&mut self) {
        self.thread_token.wake();
        self.async_token.wake();
    }
}

} // verus!
