//! Raw key events for full-screen programs: which key went down or up,
//! queued in a ring like the shell's keys.

use vstd::prelude::*;
use crate::keys::{KeyRing, BUFFER_SIZE, after_pushes, pops};

verus! {

/// The physical keys that full-screen programs react to; every other key
/// is `Other`.
#[derive(Copy, Clone, PartialEq, Eq, Structural, Debug)]
pub enum KeyCode {
    W,
    A,
    S,
    D,
    ArrowUp,
    ArrowDown,
    ArrowLeft,
    ArrowRight,
    LControl,
    RControl,
    Spacebar,
    LShift,
    RShift,
    Escape,
    Return,
    Tab,
    Key1,
    Key2,
    Key3,
    Key4,
    Key5,
    Key6,
    Key7,
    Y,
    N,
    Other,
}

/// A key going down or coming back up.
#[derive(Copy, Clone, PartialEq, Eq, Structural, Debug)]
pub enum RawKey {
    Press(KeyCode),
    Release(KeyCode),
}

/// The raw key queue.
pub type RawBuffer = KeyRing<RawKey>;

impl KeyRing<RawKey> {
    /// An empty raw key queue.
    pub fn new_raw() -> (r: Self)
        ensures
            r.wf(),
            r@ == Seq::<RawKey>::empty(),
    {
        KeyRing::new(RawKey::Press(KeyCode::Escape))
    }

    /// Queues `key`; a full queue drops it.
    pub fn push_raw(&mut self, key: RawKey)
        requires
            old(self).wf(),
        ensures
            final(self).wf(),
            old(self)@.len() < BUFFER_SIZE - 1 ==> final(self)@ == old(self)@.push(key),
            old(self)@.len() >= BUFFER_SIZE - 1 ==> final(self)@ == old(self)@,
            final(self)@ == after_pushes(old(self)@, seq![key]),
    {
        self.push(key)
    }

    /// Takes the oldest queued event.
    pub fn pop_raw(&mut self) -> (r: Option<RawKey>)
        requires
            old(self).wf(),
        ensures
            final(self).wf(),
            old(self)@.len() == 0 ==> r == None::<RawKey> && final(self)@ == old(self)@,
            old(self)@.len() > 0 ==> r == Some(old(self)@[0]) && final(self)@ == old(self)@.drop_first(),
            seq![r] == pops(old(self)@, 1),
    {
        self.pop()
    }
}

} // verus!
