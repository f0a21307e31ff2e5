//! The reader handle and its guard.
use vstd::prelude::*;
use crate::interface::{others_frame, writer_frame, reader_frame, Strategy, StrategyModel};
use super::DoubleBufferData;

verus! {

/// A reader into a double buffer.
///
/// Created by [`Writer::reader`](crate::raw::Writer::reader) and then by
/// [`Reader::clone`]. While a guard is out the reader is inside the guard, so
/// one reader never has two guards.
pub struct Reader<S: StrategyModel> {
    id: S::ReaderId,
}

/// A guard into the double buffer. While it is outstanding the writer
/// cannot get exclusive access to the cell it pins.
pub struct ReaderGuard<S: StrategyModel> {
    reader: Reader<S>,
    guard: S::ReadGuard,
    swapped: bool,
}

impl<S: StrategyModel> Reader<S> {
    /// The reader's id.
    pub closed spec fn id(&self) -> S::ReaderId {
        self.id
    }

    /// This reader is registered with `data` and holds no guard.
    pub open spec fn wf<T, Extras>(&self, data: &DoubleBufferData<T, S, Extras>) -> bool {
        &&& data.wf()
        &&& data.strategy().reader_ready(&self.id())
    }

    #[inline]
    pub(crate) fn from_raw_parts(id: S::ReaderId) -> (reader: Self)
        ensures
            reader.id() == id,
    {
        Self { id }
    }
}

impl<S: StrategyModel> ReaderGuard<S> {
    /// The reader that took this guard, as it is while the guard is out.
    pub closed spec fn reader(&self) -> Reader<S> {
        self.reader
    }

    /// The strategy's guard.
    pub closed spec fn guard(&self) -> S::ReadGuard {
        self.guard
    }

    /// The parity under which the guard was taken.
    pub closed spec fn parity(&self) -> bool {
        self.swapped
    }

    /// The cell that this guard pins.
    pub open spec fn cell(&self) -> bool {
        !self.parity()
    }

    /// This guard is outstanding on `data`.
    pub open spec fn wf<T, Extras>(&self, data: &DoubleBufferData<T, S, Extras>) -> bool {
        &&& data.wf()
        &&& data.strategy().reader_holds(&self.reader().id(), &self.guard())
        &&& self.parity() == S::guard_parity(&self.guard())
    }
}

impl<S: Strategy> Reader<S> {
    /// Takes a guard on the readers' cell of the payload, or hands back the
    /// error with which the payload could not be reached.
    pub fn try_read<T, Extras, U>(self, data: Result<&mut DoubleBufferData<T, S, Extras>, U>) -> (result:
        Result<ReaderGuard<S>, (Self, U)>)
        requires
            data matches Ok(d) ==> self.wf(d) && d.strategy().has_room(&self.id()),
        ensures
            match (data, result) {
                (Ok(d), Ok(guard)) => {
                    &&& guard.wf(final(d))
                    &&& guard.parity() == d.protocol().swapped
                    &&& final(d).protocol() == d.protocol().acquire()
                    &&& final(d).same_values(d)
                    &&& writer_frame(&d.strategy(), &final(d).strategy())
                    &&& others_frame(&d.strategy(), &final(d).strategy(), &self.id())
                    &&& S::acquired(
                        &d.strategy(),
                        &self.id(),
                        &final(d).strategy(),
                        &guard.reader().id(),
                        &guard.guard(),
                    )
                },
                (Err(e), Err(back)) => back == (self, e),
                _ => false,
            },
    {
        match data {
            Ok(d) => {
                let mut reader = self;
                let guard = d.strategy.acquire_read_guard(&mut reader.id);
                let swapped = d.strategy.is_swapped(&reader.id, &guard);
                Ok(ReaderGuard { reader, guard, swapped })
            },
            Err(e) => Err((self, e)),
        }
    }

    /// Takes a guard on the readers' cell of `data`.
    pub fn read<T, Extras>(self, data: &mut DoubleBufferData<T, S, Extras>) -> (guard: ReaderGuard<S>)
        requires
            self.wf(old(data)),
            old(data).strategy().has_room(&self.id()),
        ensures
            guard.wf(final(data)),
            guard.parity() == old(data).protocol().swapped,
            final(data).protocol() == old(data).protocol().acquire(),
            final(data).same_values(old(data)),
            writer_frame(&old(data).strategy(), &final(data).strategy()),
            others_frame(&old(data).strategy(), &final(data).strategy(), &self.id()),
            S::acquired(
                &old(data).strategy(),
                &self.id(),
                &final(data).strategy(),
                &guard.reader().id(),
                &guard.guard(),
            ),
    {
        let mut reader = self;
        let guard = data.strategy.acquire_read_guard(&mut reader.id);
        let swapped = data.strategy.is_swapped(&reader.id, &guard);
        ReaderGuard { reader, guard, swapped }
    }

    /// Takes leave of the payload: what the strategy kept for this reader may
    /// serve another reader from now on.
    pub fn retire<T, Extras>(self, data: &mut DoubleBufferData<T, S, Extras>)
        requires
            self.wf(old(data)),
        ensures
            final(data).wf(),
            final(data).protocol() == old(data).protocol(),
            final(data).same_values(old(data)),
            writer_frame(&old(data).strategy(), &final(data).strategy()),
            others_frame(&old(data).strategy(), &final(data).strategy(), &self.id()),
            S::dropped(&old(data).strategy(), &self.id(), &final(data).strategy()),
    {
        data.strategy.drop_reader_id(self.id)
    }

    /// A new reader of the same payload. Where the payload cannot be reached
    /// the new reader gets a placeholder id and can never read.
    pub fn clone<T, Extras, U>(&self, data: Result<&mut DoubleBufferData<T, S, Extras>, U>) -> (fresh:
        Self)
        requires
            data matches Ok(d) ==> d.wf(),
        ensures
            data is Err ==> S::placeholder(&fresh.id()),
            data matches Ok(d) ==> {
                &&& fresh.wf(final(d))
                &&& final(d).protocol() == d.protocol()
                &&& final(d).same_values(d)
                &&& writer_frame(&d.strategy(), &final(d).strategy())
                &&& reader_frame(&d.strategy(), &final(d).strategy())
                &&& S::created(&d.strategy(), &final(d).strategy(), &fresh.id())
            },
    {
        let id = match data {
            Ok(d) => d.strategy.create_reader_id_from_reader(&self.id),
            Err(_) => S::create_invalid_reader_id(),
        };
        Self::from_raw_parts(id)
    }
}

impl<S: Strategy> ReaderGuard<S> {
    /// The value that this guard pins.
    pub fn get<'a, T, Extras>(&self, data: &'a DoubleBufferData<T, S, Extras>) -> (value: &'a T)
        ensures
            *value == data.cell(self.cell()),
    {
        let (read, _) = data.buffers.get(self.swapped);
        read
    }

    /// The extra data stored beside the buffers.
    pub fn extras<'a, T, Extras>(&self, data: &'a DoubleBufferData<T, S, Extras>) -> (extras:
        &'a Extras)
        ensures
            *extras == data.extras(),
    {
        &data.extras
    }

    /// Projects the pinned value with `f`, or gives back the error with
    /// which `f` declines. The guard stays what pins the value.
    pub fn try_map<'a, T, Extras, U, E, F: FnOnce(&'a T) -> Result<&'a U, E>>(
        &self,
        data: &'a DoubleBufferData<T, S, Extras>,
        f: F,
    ) -> (result: Result<&'a U, E>)
        requires
            f.requires((&data.cell(self.cell()),)),
        ensures
            f.ensures((&data.cell(self.cell()),), result),
    {
        f(self.get(data))
    }

    /// Projects the pinned value with `f`. The guard stays what pins the value.
    pub fn map<'a, T, Extras, U, F: FnOnce(&'a T) -> &'a U>(
        &self,
        data: &'a DoubleBufferData<T, S, Extras>,
        f: F,
    ) -> (value: &'a U)
        requires
            f.requires((&data.cell(self.cell()),)),
        ensures
            f.ensures((&data.cell(self.cell()),), value),
    {
        f(self.get(data))
    }

    /// Projects the pinned value and the extras with `f`, or gives back the
    /// error with which `f` declines. The guard stays what pins the value.
    pub fn try_map_with_extras<
        'a,
        T,
        Extras,
        U,
        E,
        F: FnOnce(&'a T, &'a Extras) -> Result<&'a U, E>,
    >(&self, data: &'a DoubleBufferData<T, S, Extras>, f: F) -> (result: Result<&'a U, E>)
        requires
            f.requires((&data.cell(self.cell()), &data.extras())),
        ensures
            f.ensures((&data.cell(self.cell()), &data.extras()), result),
    {
        f(self.get(data), self.extras(data))
    }

    /// Projects the pinned value and the extras with `f`. The guard stays
    /// what pins the value.
    pub fn map_with_extras<'a, T, Extras, U, F: FnOnce(&'a T, &'a Extras) -> &'a U>(
        &self,
        data: &'a DoubleBufferData<T, S, Extras>,
        f: F,
    ) -> (value: &'a U)
        requires
            f.requires((&data.cell(self.cell()), &data.extras())),
        ensures
            f.ensures((&data.cell(self.cell()), &data.extras()), value),
    {
        f(self.get(data), self.extras(data))
    }

    /// Gives the guard back and returns the reader, ready to read again.
    pub fn release<T, Extras>(self, data: &mut DoubleBufferData<T, S, Extras>) -> (reader: Reader<S>)
        requires
            self.wf(old(data)),
        ensures
            reader.wf(final(data)),
            old(data).protocol().held(self.parity()) > 0,
            final(data).protocol() == old(data).protocol().release(self.parity()),
            final(data).same_values(old(data)),
            writer_frame(&old(data).strategy(), &final(data).strategy()),
            others_frame(&old(data).strategy(), &final(data).strategy(), &self.reader().id()),
            S::released(
                &old(data).strategy(),
                &self.reader().id(),
                &self.guard(),
                &final(data).strategy(),
                &reader.id(),
            ),
    {
        let ReaderGuard { reader, guard, swapped } = self;
        let mut reader = reader;
        data.strategy.release_read_guard(&mut reader.id, guard);
        reader
    }
}

} // verus!
