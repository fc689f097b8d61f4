//! Keyboard input queues.
//!
//! Interrupt handlers push decoded keys into a fixed ring of 256 slots and
//! the shell pops them.  One slot always stays free, so a ring holds at most
//! 255 keys; a push into a full ring drops the new key.

use vstd::prelude::*;

verus! {

/// Number of slots in a key ring.
pub const BUFFER_SIZE: usize = 256;

/// A key as the shell sees it.
#[derive(Copy, Clone, PartialEq, Eq, Structural, Debug)]
pub enum Key {
    Char(char),
    Up,
    Down,
    Left,
    Right,
}

/// Fixed-size ring of `BUFFER_SIZE` slots; `head` is where the next key goes,
/// `tail` is the oldest queued key.
pub struct KeyRing<T> {
    buffer: Vec<T>,
    head: usize,
    tail: usize,
}

/// Number of queued keys in a ring with these indices.
pub open spec fn ring_count(head: int, tail: int) -> int {
    (head - tail + BUFFER_SIZE as int) % (BUFFER_SIZE as int)
}

impl<T: Copy> KeyRing<T> {
    /// The ring is well formed: full backing store, indices in range.
    pub closed spec fn wf(&self) -> bool {
        &&& self.buffer@.len() == BUFFER_SIZE
        &&& self.head < BUFFER_SIZE
        &&& self.tail < BUFFER_SIZE
    }

    /// The queued keys, oldest first.
    pub closed spec fn view(&self) -> Seq<T> {
        Seq::new(
            ring_count(self.head as int, self.tail as int) as nat,
            |i: int| self.buffer@[(self.tail as int + i) % (BUFFER_SIZE as int)],
        )
    }

    /// An empty ring whose slots are filled with `fill`.
    pub fn new(fill: T) -> (r: Self)
        ensures
            r.wf(),
            r@ == Seq::<T>::empty(),
    {
        let mut buffer: Vec<T> = Vec::new();
        let mut i: usize = 0;
        while i < BUFFER_SIZE
            invariant
                i <= BUFFER_SIZE,
                buffer@.len() == i,
            decreases BUFFER_SIZE - i,
        {
            buffer.push(fill);
            i = i + 1;
        }
        let r = KeyRing { buffer, head: 0, tail: 0 };
        assert(r@ =~= Seq::<T>::empty());
        r
    }

    /// Number of queued keys.
    pub fn len(&self) -> (n: usize)
        requires
            self.wf(),
        ensures
            n == self@.len(),
    {
        if self.head >= self.tail {
            self.head - self.tail
        } else {
            self.head + BUFFER_SIZE - self.tail
        }
    }

    /// Appends `key` unless the ring already holds `BUFFER_SIZE - 1` keys,
    /// in which case the ring is left unchanged.
    pub fn push(&mut self, key: T)
        requires
            old(self).wf(),
        ensures
            final(self).wf(),
            old(self)@.len() < BUFFER_SIZE - 1 ==> final(self)@ == old(self)@.push(key),
            old(self)@.len() >= BUFFER_SIZE - 1 ==> final(self)@ == old(self)@,
            final(self)@ == after_pushes(old(self)@, seq![key]),
    {
        proof {
            assert(seq![key].drop_last() =~= Seq::<T>::empty());
            assert(after_pushes(old(self)@, Seq::<T>::empty()) == old(self)@);
            assert(seq![key].last() == key);
        }
        let next = (self.head + 1) % BUFFER_SIZE;
        if next != self.tail {
            let index = self.head;
            self.buffer.set(index, key);
            self.head = next;
            assert(self@ =~= old(self)@.push(key)) by {
                assert forall|i: int| 0 <= i < self@.len() implies self@[i] == old(self)@.push(key)[i] by {
                    if i < old(self)@.len() {
                        assert((self.tail as int + i) % 256 != index as int);
                    }
                }
            }
        }
    }

    /// Removes and returns the oldest key, or `None` when the ring is empty.
    pub fn pop(&mut self) -> (r: Option<T>)
        requires
            old(self).wf(),
        ensures
            final(self).wf(),
            old(self)@.len() == 0 ==> r == None::<T> && final(self)@ == old(self)@,
            old(self)@.len() > 0 ==> r == Some(old(self)@[0]) && final(self)@ == old(self)@.drop_first(),
            seq![r] == pops(old(self)@, 1),
    {
        proof {
            assert(pops(old(self)@, 0) =~= Seq::<Option<T>>::empty());
            assert(pops(old(self)@.drop_first(), 0) =~= Seq::<Option<T>>::empty());
        }
        if self.tail == self.head {
            None
        } else {
            let index = self.tail;
            let key = self.buffer[index];
            self.tail = (self.tail + 1) % BUFFER_SIZE;
            assert(self@ =~= old(self)@.drop_first());
            Some(key)
        }
    }
}

/// A ring never holds more than `BUFFER_SIZE - 1` keys.
pub proof fn law_ring_capacity<T: Copy>(r: &KeyRing<T>)
    requires
        r.wf(),
    ensures
        r@.len() <= BUFFER_SIZE - 1,
{
}

/// The queue after pushing `ks` one by one onto `q`, as `push` does: a
/// key that finds the ring full is dropped.
pub open spec fn after_pushes<T>(q: Seq<T>, ks: Seq<T>) -> Seq<T>
    decreases ks.len(),
{
    if ks.len() == 0 {
        q
    } else {
        let q1 = after_pushes(q, ks.drop_last());
        if q1.len() < BUFFER_SIZE - 1 { q1.push(ks.last()) } else { q1 }
    }
}

/// What `n` pops from queue `q` return, in order, as `pop` does: the
/// oldest key each time, `None` once the queue is empty.
pub open spec fn pops<T>(q: Seq<T>, n: nat) -> Seq<Option<T>>
    decreases n,
{
    if n == 0 {
        Seq::empty()
    } else if q.len() == 0 {
        seq![None] + pops(q, (n - 1) as nat)
    } else {
        seq![Some(q[0])] + pops(q.drop_first(), (n - 1) as nat)
    }
}

/// Pushing up to `BUFFER_SIZE - 1` keys onto an empty ring and popping one
/// more time than that gives the keys back in the order they were pushed,
/// then `None`.
pub proof fn law_keys_come_out_in_order<T>(ks: Seq<T>)
    requires
        ks.len() <= BUFFER_SIZE - 1,
    ensures
        after_pushes(Seq::<T>::empty(), ks) == ks,
        pops(ks, ks.len() + 1) == Seq::new(ks.len(), |i: int| Some(ks[i])).push(None),
{
    lemma_pushes_all(ks);
    lemma_pops_in_order(ks);
}

proof fn lemma_pushes_all<T>(ks: Seq<T>)
    requires
        ks.len() <= BUFFER_SIZE - 1,
    ensures
        after_pushes(Seq::<T>::empty(), ks) == ks,
    decreases ks.len(),
{
    if ks.len() > 0 {
        lemma_pushes_all(ks.drop_last());
        assert(ks.drop_last().push(ks.last()) =~= ks);
    }
}

proof fn lemma_pops_in_order<T>(ks: Seq<T>)
    ensures
        pops(ks, ks.len() + 1) == Seq::new(ks.len(), |i: int| Some(ks[i])).push(None),
    decreases ks.len(),
{
    if ks.len() == 0 {
        assert(pops(ks, 0) =~= Seq::<Option<T>>::empty());
        assert(pops(ks, 1) =~= seq![None::<T>]);
        assert(Seq::new(0, |i: int| Some(ks[i])).push(None) =~= seq![None::<T>]);
    } else {
        lemma_pops_in_order(ks.drop_first());
        let rest = ks.drop_first();
        assert(seq![Some(ks[0])] + Seq::new(rest.len(), |i: int| Some(rest[i])).push(None)
            =~= Seq::new(ks.len(), |i: int| Some(ks[i])).push(None));
    }
}

/// The shell's key queue.
pub type KeyBuffer = KeyRing<Key>;

impl KeyRing<Key> {
    /// An empty key queue.
    pub fn new_keys() -> (r: Self)
        ensures
            r.wf(),
            r@ == Seq::<Key>::empty(),
    {
        KeyRing::new(Key::Char('\0'))
    }

    /// Queues `key`; a full queue drops it.
    pub fn push_key(&mut self, key: Key)
        requires
            old(self).wf(),
        ensures
            final(self).wf(),
            old(self)@.len() < BUFFER_SIZE - 1 ==> final(self)@ == old(self)@.push(key),
            old(self)@.len() >= BUFFER_SIZE - 1 ==> final(self)@ == old(self)@,
            final(self)@ == after_pushes(old(self)@, seq![key]),
    {
        self.push(key)
    }

    /// Takes the oldest queued key.
    pub fn pop_key(&mut self) -> (r: Option<Key>)
        requires
            old(self).wf(),
        ensures
            final(self).wf(),
            old(self)@.len() == 0 ==> r == None::<Key> && final(self)@ == old(self)@,
            old(self)@.len() > 0 ==> r == Some(old(self)@[0]) && final(self)@ == old(self)@.drop_first(),
            seq![r] == pops(old(self)@, 1),
    {
        self.pop()
    }
}

/// The key that a byte received on the serial line stands for: carriage
/// return is Enter, DEL is backspace, any other byte is that character.
pub fn serial_byte_key(byte: u8) -> (k: Key)
    ensures
        byte == 13 ==> k == Key::Char('\n'),
        byte == 127 ==> k == Key::Char('\x08'),
        byte != 13 && byte != 127 ==> k == Key::Char(byte as char),
{
    if byte == 13u8 {
        Key::Char('\n')
    } else if byte == 0x7f {
        Key::Char('\x08')
    } else {
        Key::Char(byte as char)
    }
}

} // verus!
