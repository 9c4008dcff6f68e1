use vstd::prelude::*;
use vstd::arithmetic::div_mod::{
    lemma_add_mod_noop, lemma_mod_add_multiples_vanish, lemma_mod_self_0, lemma_mod_sub_multiples_vanish,
    lemma_mod_twice, lemma_small_mod,
};

verus! {

/// Slot bookkeeping of the partitioned echo canceller, as values: a ring of
/// `max_delay` delayed far-end blocks with its read and write cursors, and a
/// ring of `partitions` past far-end spectra with the slot of the newest.
pub struct CursorState {
    pub partitions: nat,
    pub max_delay: nat,
    /// Blocks between writing a far-end block and reading it back.
    pub lag: nat,
    pub read: nat,
    pub write: nat,
    pub newest: nat,
}

impl CursorState {
    pub open spec fn wf(self) -> bool {
        &&& 0 < self.partitions <= usize::MAX
        &&& 0 < self.max_delay <= usize::MAX
        &&& self.lag < self.max_delay
        &&& self.read < self.max_delay
        &&& self.write < self.max_delay
        &&& self.newest < self.partitions
        &&& (self.read + self.lag) % self.max_delay == self.write
    }
}

/// The slots one block uses: where the incoming far-end block is stored,
/// which stored block is read back as this block's reference, and where
/// the reference's spectrum goes in the history.
#[derive(Debug, Clone, Copy, PartialEq, Eq, Structural)]
pub struct BlockSlots {
    pub write: usize,
    pub read: usize,
    pub newest: usize,
}

/// One block: store at the write cursor, read at the read cursor, advance
/// both, and step the history back by one slot (cyclically) for the new
/// spectrum.
pub open spec fn advance_spec(c: CursorState) -> (CursorState, BlockSlots) {
    let newest = if c.newest == 0 { (c.partitions - 1) as nat } else { (c.newest - 1) as nat };
    (
        CursorState {
            read: (c.read + 1) % c.max_delay,
            write: (c.write + 1) % c.max_delay,
            newest,
            ..c
        },
        BlockSlots { write: c.write as usize, read: c.read as usize, newest: newest as usize },
    )
}

/// The cursors after `n` blocks.
pub open spec fn advance_n(c: CursorState, n: nat) -> CursorState
    decreases n,
{
    if n == 0 {
        c
    } else {
        advance_n(advance_spec(c).0, (n - 1) as nat)
    }
}

/// The history slot of partition `k`: the spectrum `k` blocks older than the
/// newest.
pub open spec fn partition_slot_spec(c: CursorState, k: nat) -> nat {
    (c.newest + k) % c.partitions
}

/// Cursors of the partitioned echo canceller's delay ring and spectrum
/// history.
pub struct PartitionCursor {
    partitions: usize,
    max_delay: usize,
    lag: usize,
    read: usize,
    write: usize,
    newest: usize,
}

impl View for PartitionCursor {
    type V = CursorState;

    closed spec fn view(&self) -> CursorState {
        CursorState {
            partitions: self.partitions as nat,
            max_delay: self.max_delay as nat,
            lag: self.lag as nat,
            read: self.read as nat,
            write: self.write as nat,
            newest: self.newest as nat,
        }
    }
}

impl PartitionCursor {
    /// Cursors for `partitions` spectra and a delay ring of `max_delay`
    /// blocks, reading each far-end block back `initial_delay` blocks (modulo
    /// the ring's size) after it was stored.
    pub fn new(partitions: usize, max_delay: usize, initial_delay: usize) -> (r: Self)
        requires
            partitions > 0,
            max_delay > 0,
        ensures
            r@ == (CursorState {
                partitions: partitions as nat,
                max_delay: max_delay as nat,
                lag: initial_delay as nat % max_delay as nat,
                read: 0,
                write: initial_delay as nat % max_delay as nat,
                newest: 0,
            }),
            r@.wf(),
    {
        let lag = initial_delay % max_delay;
        proof {
            lemma_small_mod(lag as nat, max_delay as nat);
        }
        PartitionCursor { partitions, max_delay, lag, read: 0, write: lag, newest: 0 }
    }

    /// Reads far-end blocks back `blocks` blocks (modulo the ring's size)
    /// after they are stored, from the next block on: the read cursor moves,
    /// the write cursor stays.
    pub fn set_delay(&mut self, blocks: usize)
        requires
            old(self)@.wf(),
        ensures
            final(self)@.wf(),
            final(self)@.lag == blocks as nat % old(self)@.max_delay,
            final(self)@.write == old(self)@.write,
            final(self)@.newest == old(self)@.newest,
            final(self)@.partitions == old(self)@.partitions,
            final(self)@.max_delay == old(self)@.max_delay,
    {
        let m = self.max_delay;
        let lag = blocks % m;
        let read = if self.write >= lag {
            self.write - lag
        } else {
            m - (lag - self.write)
        };
        proof {
            lemma_small_mod(self.write as nat, m as nat);
            if self.write < lag {
                lemma_mod_add_multiples_vanish(self.write as int, m as int);
                assert(read + lag == m + self.write);
            }
        }
        self.lag = lag;
        self.read = read;
    }

    /// The slots of the next block; moves the cursors on.
    pub fn advance(&mut self) -> (s: BlockSlots)
        requires
            old(self)@.wf(),
        ensures
            (final(self)@, s) == advance_spec(old(self)@),
            final(self)@.wf(),
    {
        let ghost c = self@;
        let m = self.max_delay;
        let slots_newest = if self.newest == 0 {
            self.partitions - 1
        } else {
            self.newest - 1
        };
        let s = BlockSlots { write: self.write, read: self.read, newest: slots_newest };
        self.read = if self.read + 1 == m {
            0
        } else {
            self.read + 1
        };
        self.write = if self.write + 1 == m {
            0
        } else {
            self.write + 1
        };
        self.newest = slots_newest;
        proof {
            lemma_step_keeps_lag(c);
        }
        s
    }

    /// The history slot that partition `k` of the filter is paired with.
    pub fn partition_slot(&self, k: usize) -> (r: usize)
        requires
            self@.wf(),
            k < self@.partitions,
        ensures
            r as nat == partition_slot_spec(self@, k as nat),
    {
        let room = self.partitions - self.newest;
        if k < room {
            proof {
                lemma_small_mod((self.newest + k) as nat, self.partitions as nat);
            }
            self.newest + k
        } else {
            proof {
                let p = self.partitions as int;
                lemma_mod_add_multiples_vanish((k - room) as int, p);
                lemma_small_mod((k - room) as nat, self.partitions as nat);
                assert(self.newest + k == p + (k - room));
            }
            k - room
        }
    }
}

/// Moving both cursors on by one keeps the distance between them.
proof fn lemma_step_keeps_lag(c: CursorState)
    requires
        c.wf(),
    ensures
        advance_spec(c).0.wf(),
        advance_spec(c).0.read == (if c.read + 1 == c.max_delay { 0 } else { c.read + 1 }),
        advance_spec(c).0.write == (if c.write + 1 == c.max_delay { 0 } else { c.write + 1 }),
{
    let m = c.max_delay as int;
    let r = c.read as int;
    let w = c.write as int;
    let l = c.lag as int;
    lemma_small_mod(c.lag, c.max_delay);
    lemma_small_mod(c.write, c.max_delay);
    lemma_add_mod_noop(r + 1, l, m);
    lemma_add_mod_noop(r + l, 1, m);
    lemma_add_mod_noop(w, 1, m);
    lemma_cyclic_successor(r, m);
    lemma_cyclic_successor(w, m);
}

/// `(x + 1) % m` is the next slot of a ring of `m`.
proof fn lemma_cyclic_successor(x: int, m: int)
    requires
        0 <= x < m,
    ensures
        (x + 1) % m == (if x + 1 == m { 0 } else { x + 1 }),
{
    if x + 1 < m {
        lemma_small_mod((x + 1) as nat, m as nat);
    } else {
        lemma_mod_self_0(m);
    }
}

/// After `n` blocks both cursors have moved on by `n` slots, cyclically, and
/// the newest history slot has moved back by `n`.
proof fn lemma_advance_n(c: CursorState, n: nat)
    requires
        c.wf(),
    ensures
        advance_n(c, n).wf(),
        advance_n(c, n).read == (c.read + n) % c.max_delay,
        advance_n(c, n).write == (c.write + n) % c.max_delay,
        (advance_n(c, n).newest + n) % c.partitions == c.newest,
        advance_n(c, n).lag == c.lag,
        advance_n(c, n).max_delay == c.max_delay,
        advance_n(c, n).partitions == c.partitions,
    decreases n,
{
    let m = c.max_delay as int;
    let p = c.partitions as int;
    let r = c.read as int;
    let w = c.write as int;
    let k = n as int;
    if n == 0 {
        lemma_small_mod(c.read, c.max_delay);
        lemma_small_mod(c.write, c.max_delay);
        lemma_small_mod(c.newest, c.partitions);
    } else {
        let c1 = advance_spec(c).0;
        lemma_step_keeps_lag(c);
        lemma_advance_n(c1, (n - 1) as nat);
        lemma_add_mod_noop(r + 1, k - 1, m);
        lemma_add_mod_noop(w + 1, k - 1, m);
        lemma_mod_twice(r + 1, m);
        lemma_mod_twice(w + 1, m);
        lemma_add_mod_noop((r + 1) % m, k - 1, m);
        lemma_add_mod_noop((w + 1) % m, k - 1, m);
        lemma_cyclic_successor(r, m);
        lemma_cyclic_successor(w, m);
        let x = advance_n(c1, (n - 1) as nat).newest as int;
        lemma_add_mod_noop(x + k - 1, 1, p);
        lemma_add_mod_noop(c1.newest as int, 1, p);
        lemma_small_mod(c1.newest, c.partitions);
        if c.newest == 0 {
            lemma_mod_self_0(p);
        } else {
            lemma_small_mod(c.newest, c.partitions);
        }
    }
}

/// The block stored now is the one read back `lag` blocks later.
pub proof fn lemma_read_back_after_lag(c: CursorState)
    requires
        c.wf(),
    ensures
        advance_n(c, c.lag).read == c.write,
{
    lemma_advance_n(c, c.lag);
}

/// No block stored in the `lag` blocks after this one lands on its slot
/// before it is read back.
pub proof fn lemma_delay_line(c: CursorState, j: nat)
    requires
        c.wf(),
        0 < j < c.lag,
    ensures
        advance_n(c, j).write != c.write,
{
    lemma_advance_n(c, j);
    if c.write + j < c.max_delay {
        lemma_small_mod(c.write + j, c.max_delay);
    } else {
        lemma_mod_sub_multiples_vanish((c.write + j) as int, c.max_delay as int);
        lemma_small_mod((c.write + j - c.max_delay) as nat, c.max_delay);
    }
}

/// Partition `k` of the filter is paired with the spectrum that was the
/// newest `k` blocks ago.
pub proof fn lemma_partition_history(c: CursorState, k: nat)
    requires
        c.wf(),
        k < c.partitions,
    ensures
        partition_slot_spec(advance_n(c, k), k) == c.newest,
{
    lemma_advance_n(c, k);
}

} // verus!
