use vstd::prelude::*;

use crate::journal::{current_record, JournalStore, StoreJournalReader};

verus! {

/// The buffer after `v` arrives: `v` is added at the end and, once the buffer
/// holds more than `window_size` records, the oldest one leaves.
pub open spec fn slide<T>(buffer: Seq<T>, v: T, window_size: nat) -> Seq<T> {
    let grown = buffer.push(v);
    if grown.len() > window_size {
        grown.drop_first()
    } else {
        grown
    }
}

/// What one output value stands for in the target store.
pub open spec fn out_items<T>(o: Option<T>) -> Seq<T> {
    match o {
        Some(v) => seq![v],
        None => Seq::<T>::empty(),
    }
}

/// What one call of `reduce` does: nothing when the reader has not moved past
/// `last_index`; otherwise the record the reader stands on slides into the
/// buffer and, exactly when the buffer then holds `window_size` records,
/// `update_fn` is applied to it and a `Some` result is appended to the target.
pub open spec fn reduce_effect<In, Out, F: Fn(&[In]) -> Option<Out>>(
    before: Window<In, Out>,
    after: Window<In, Out>,
    reader_index: nat,
    source: Seq<In>,
    target_before: Seq<Out>,
    target_after: Seq<Out>,
    window_size: u32,
    update_fn: F,
) -> bool {
    if reader_index <= before.last_index {
        &&& after == before
        &&& target_after == target_before
    } else {
        let v = current_record(source, reader_index)->Some_0;
        let buf = slide(before.buffer@, v, window_size as nat);
        &&& after.last_index == reader_index
        &&& after.buffer@ == buf
        &&& buf.len() != window_size ==> target_after == target_before
        &&& buf.len() == window_size ==> exists|s: &[In], o: Option<Out>|
            s@ == buf && #[trigger] call_ensures(update_fn, (s,), o) && target_after
                == target_before + out_items(o)
    }
}

/// Whether the next call of `reduce` takes in a record and then holds a full
/// window, so that it may append to the target.
pub open spec fn fills_window<In, Out>(
    w: Window<In, Out>,
    reader_index: nat,
    source: Seq<In>,
    window_size: u32,
) -> bool {
    reader_index > w.last_index && slide(
        w.buffer@,
        current_record(source, reader_index)->Some_0,
        window_size as nat,
    ).len() == window_size
}

/// A sliding-window reducer: keeps the most recent records of a source and
/// reduces each full window into the target store.
pub struct Window<In, Out> {
    pub last_index: usize,
    pub buffer: Vec<In>,
    pub _phantom: core::marker::PhantomData<Out>,
}

impl<In: Copy, Out: Copy> Window<In, Out> {
    /// An empty window that has seen no record.
    pub fn new() -> (r: Self)
        ensures
            r.last_index == 0,
            r.buffer@ == Seq::<In>::empty(),
    {
        Window { last_index: 0, buffer: Vec::new(), _phantom: core::marker::PhantomData }
    }

    /// An empty window meant to read `source` and write `target`.
    pub fn pipe(source: &JournalStore<In>, target: &JournalStore<Out>) -> (r: Self)
        ensures
            r.last_index == 0,
            r.buffer@ == Seq::<In>::empty(),
    {
        Self::new()
    }

    /// Takes in the record `reader` stands on, if it moved since the last call,
    /// and, when the buffer then holds exactly `window_size` records, appends
    /// the result of `update_fn` on them to `target` when it is `Some`.
    pub fn reduce<F: Fn(&[In]) -> Option<Out>>(
        &mut self,
        reader: &StoreJournalReader,
        source: &JournalStore<In>,
        target: &mut JournalStore<Out>,
        window_size: u32,
        update_fn: F,
    )
        requires
            reader.valid_for(source.records()),
            old(target).wf(),
            fills_window(*old(self), reader.index(), source.records(), window_size)
                ==> old(target).records().len() < old(target).capacity(),
            forall|s: &[In]| call_requires(update_fn, (s,)),
        ensures
            final(target).wf(),
            final(target).capacity() == old(target).capacity(),
            reduce_effect(
                *old(self),
                *final(self),
                reader.index(),
                source.records(),
                old(target).records(),
                final(target).records(),
                window_size,
                update_fn,
            ),
    {
        let current_index = reader.get_index();
        if current_index > self.last_index {
            if let Some(val) = reader.get(source) {
                self.buffer.push(val);
                if self.buffer.len() > window_size as usize {
                    self.buffer.remove(0);
                }
                proof {
                    let grown = old(self).buffer@.push(val);
                    if grown.len() > window_size {
                        assert(self.buffer@ =~= grown.drop_first());
                    }
                }
                if self.buffer.len() == window_size as usize {
                    let out = update_fn(self.buffer.as_slice());
                    if let Some(o) = out {
                        target.append(&o);
                    }
                    proof {
                        assert(target.records() =~= old(target).records() + out_items(out));
                    }
                }
            }
            self.last_index = current_index;
        }
    }
}

/// Once the buffer holds `window_size` records it keeps holding that many;
/// before that, each new record makes it one longer.
pub proof fn law_window_length<T>(buffer: Seq<T>, v: T, window_size: nat)
    requires
        buffer.len() <= window_size,
    ensures
        buffer.len() == window_size ==> slide(buffer, v, window_size).len() == window_size,
        buffer.len() < window_size ==> slide(buffer, v, window_size).len() == buffer.len() + 1,
        slide(buffer, v, window_size).len() <= window_size,
        window_size > 0 ==> slide(buffer, v, window_size).last() == v,
{
}

/// A window bound to the reader and store it takes records from.
pub struct WindowFrom<'a, In, Out> {
    pub window: &'a mut Window<In, Out>,
    pub reader: &'a StoreJournalReader,
    pub source: &'a JournalStore<In>,
}

/// A window bound to its source and to the store it writes to.
pub struct WindowTo<'a, In, Out> {
    pub window: &'a mut Window<In, Out>,
    pub reader: &'a StoreJournalReader,
    pub source: &'a JournalStore<In>,
    pub target: &'a mut JournalStore<Out>,
}

impl<In: Copy, Out: Copy> Window<In, Out> {
    /// Binds this window to `reader` over `source`.
    pub fn from<'a>(&'a mut self, reader: &'a StoreJournalReader, source: &'a JournalStore<In>) -> (r:
        WindowFrom<'a, In, Out>)
        ensures
            *r.window == *old(self),
            r.reader == reader,
            r.source == source,
            *final(self) == *final(r.window),
    {
        WindowFrom { window: self, reader, source }
    }
}

impl<'a, In: Copy, Out: Copy> WindowTo<'a, In, Out> {
    /// Runs one step of the window: see `Window::reduce`.
    pub fn reduce<F: Fn(&[In]) -> Option<Out>>(self, window_size: u32, update_fn: F)
        requires
            self.reader.valid_for(self.source.records()),
            old(self.target).wf(),
            fills_window(*old(self.window), self.reader.index(), self.source.records(), window_size)
                ==> old(self.target).records().len() < old(self.target).capacity(),
            forall|s: &[In]| call_requires(update_fn, (s,)),
        ensures
            final(self.target).wf(),
            final(self.target).capacity() == old(self.target).capacity(),
            reduce_effect(
                *old(self.window),
                *final(self.window),
                self.reader.index(),
                self.source.records(),
                old(self.target).records(),
                final(self.target).records(),
                window_size,
                update_fn,
            ),
    {
        self.window.reduce(self.reader, self.source, self.target, window_size, update_fn)
    }
}

impl<'a, In: Copy, Out: Copy> WindowFrom<'a, In, Out> {
    /// Binds the window to the store it writes to.
    pub fn to(self, target: &'a mut JournalStore<Out>) -> (r: WindowTo<'a, In, Out>)
        ensures
            *r.window == *old(self.window),
            *final(r.window) == *final(self.window),
            r.reader == self.reader,
            r.source == self.source,
            *r.target == *old(target),
            *final(target) == *final(r.target),
    {
        WindowTo { window: self.window, reader: self.reader, source: self.source, target }
    }
}

} // verus!
