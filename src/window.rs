//! The sliding window of block numbers that a transfer keeps in flight.
use vstd::prelude::*;

verus! {

/// Distance from `b` forward to `a` on the 16-bit block-number circle.
pub open spec fn block_diff(a: u16, b: u16) -> int {
    (a as int - b as int + 65536) % 65536
}

/// `a + k` on the 16-bit block-number circle.
pub open spec fn block_add(a: u16, k: int) -> u16 {
    ((a as int + k) % 65536) as u16
}

/// A Go-Back-N window over block numbers that wrap modulo 2^16.
///
/// `start` is the lowest unacknowledged block, `end` the first block past the
/// window, and `next_send` the next block to emit.
#[derive(Debug, Clone, Copy, PartialEq, Eq, Structural)]
pub struct Window {
    pub size: u16,
    pub start: u16,
    pub end: u16,
    pub next_send: u16,
}

impl Window {
    /// The window's invariant: a non-empty width, `end` one width past
    /// `start`, and `next_send` no further than `end`.
    pub open spec fn wf(&self) -> bool {
        &&& 1 <= self.size
        &&& self.end == block_add(self.start, self.size as int)
        &&& block_diff(self.next_send, self.start) <= self.size
    }

    /// Whether a cumulative acknowledgement of `ack` lies inside the window.
    pub open spec fn in_window(&self, ack: u16) -> bool {
        block_diff(ack, self.start) < self.size
    }

    /// The window that `new(size)` makes.
    pub open spec fn new_spec(size: u16) -> Window {
        Window { size, start: 1, end: block_add(1, size as int), next_send: 1 }
    }

    /// What `next` yields, and the window after it.
    pub open spec fn spec_next(self) -> (Option<u16>, Window) {
        if block_diff(self.next_send, self.start) == self.size {
            (None, self)
        } else {
            (Some(self.next_send), Window { next_send: block_add(self.next_send, 1), ..self })
        }
    }

    /// The window after `update(ack, _)`, and the offset it returns.
    pub open spec fn spec_update(self, ack: u16) -> (Window, int) {
        let w = if self.in_window(ack) {
            let s = block_add(ack, 1);
            Window { size: self.size, start: s, end: block_add(s, self.size as int), next_send: s }
        } else {
            Window { next_send: self.start, ..self }
        };
        (w, block_diff(w.next_send, self.start) - block_diff(self.next_send, self.start))
    }

    /// A fresh window of `size` blocks starting at block 1, nothing sent yet.
    pub fn new(size: u16) -> (w: Window)
        requires
            1 <= size,
        ensures
            w.wf(),
            w == Window::new_spec(size),
            w.size == size,
            w.start == 1,
            w.next_send == 1,
            w.end == block_add(1, size as int),
    {
        Window { size: size, start: 1, end: size.wrapping_add(1), next_send: 1 }
    }

    /// Yields the next block number to emit, or `None` once `next_send`
    /// has reached `end`.
    pub fn next(&mut self) -> (r: Option<u16>)
        requires
            old(self).wf(),
        ensures
            final(self).wf(),
            (r, *final(self)) == old(self).spec_next(),
            block_diff(old(self).next_send, old(self).start) == old(self).size ==> {
                &&& r is None
                &&& final(self).next_send == old(self).next_send
            },
            block_diff(old(self).next_send, old(self).start) < old(self).size ==> {
                &&& r == Some(old(self).next_send)
                &&& final(self).next_send == block_add(old(self).next_send, 1)
            },
    {
        if self.next_send == self.end {
            None
        } else {
            let cur = self.next_send;
            self.next_send = self.next_send.wrapping_add(1);
            Some(cur)
        }
    }

    /// Consumes a cumulative acknowledgement and returns, in blocks, how far
    /// the block the next read supplies has moved.
    ///
    /// An acknowledgement inside the window slides it to start just past
    /// `ack`; any other one rewinds `next_send` to the window's base, which is
    /// the same under Go-Back-N and under stop-and-wait.
    pub fn update(&mut self, ack: u16, gbn: bool) -> (offset: i64)
        requires
            old(self).wf(),
        ensures
            final(self).wf(),
            (*final(self), offset as int) == old(self).spec_update(ack),
            final(self).next_send == final(self).start,
            old(self).in_window(ack) ==> final(self).start == block_add(ack, 1),
            !old(self).in_window(ack) ==> final(self).start == old(self).start,
            offset == block_diff(final(self).next_send, old(self).start) - block_diff(
                old(self).next_send,
                old(self).start,
            ),
    {
        let last_next_send = self.next_send;
        let last_start = self.start;
        let ghost w0 = *self;
        let d = ack.wrapping_sub(self.start);
        assert(d as int == block_diff(ack, w0.start));
        if d < self.size {
            self.start = ack.wrapping_add(1);
            assert(self.start == block_add(ack, 1));
            self.end = self.start.wrapping_add(self.size);
            assert(self.end == block_add(self.start, self.size as int));
            self.next_send = self.start;
        } else {
            self.next_send = self.start;
        }
        assert(*self == w0.spec_update(ack).0);
        let last = last_next_send.wrapping_sub(last_start) as i64;
        let cur = self.next_send.wrapping_sub(last_start) as i64;
        assert(last as int == block_diff(w0.next_send, w0.start));
        assert(cur as int == block_diff(self.next_send, w0.start));
        cur - last
    }
}


/// The window after `k` calls of `next`.
pub open spec fn after_nexts(w: Window, k: nat) -> Window
    decreases k,
{
    if k == 0 {
        w
    } else {
        after_nexts(w, (k - 1) as nat).spec_next().1
    }
}

/// A window whose `next_send` is at its base yields exactly `size` blocks,
/// `start`, `start + 1`, ... modulo 2^16, and then nothing.
#[verifier::rlimit(40)]
pub proof fn lemma_window_iterates(w: Window, k: nat)
    requires
        w.wf(),
        w.next_send == w.start,
        k <= w.size,
    ensures
        after_nexts(w, k) == (Window { next_send: block_add(w.start, k as int), ..w }),
        k < w.size ==> after_nexts(w, k).spec_next().0 == Some(block_add(w.start, k as int)),
        k == w.size ==> after_nexts(w, k).spec_next().0 is None,
    decreases k,
{
    if k > 0 {
        lemma_window_iterates(w, (k - 1) as nat);
        let prev = after_nexts(w, (k - 1) as nat);
        assert(block_diff(prev.next_send, prev.start) == k - 1);
        assert(block_add(prev.next_send, 1) == block_add(w.start, k as int));
    }
    let v = after_nexts(w, k);
    assert(block_diff(v.next_send, v.start) == k);
}

/// After `new(size)`, the window yields the blocks `1..=size` and then nothing.
pub proof fn lemma_new_window_yields(size: u16, k: nat)
    requires
        1 <= size,
        k <= size,
    ensures
        k < size ==> after_nexts(Window::new_spec(size), k).spec_next().0 == Some(
            (k + 1) as u16,
        ),
        k == size ==> after_nexts(Window::new_spec(size), k).spec_next().0 is None,
{
    lemma_window_iterates(Window::new_spec(size), k);
}

} // verus!
