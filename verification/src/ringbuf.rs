//! The ring buffer that tracks a channel's occupied page range, and the
//! message window that tracks its occupied message-count range.
//!
//! Both structures are pure position bookkeeping over the wrapping index
//! space: the ring buffer keeps `[head, tail)` in the page-index domain,
//! the message window keeps `[first, free)` in the message-index domain.
//! The queue engine keeps the window size in 1:1 correspondence with the
//! total number of messages stored across the occupied pages.

use crate::indices::{
    wrap_add, wrap_dist, wrap_offset, wrap_sub, MessageIndex, PageIndex, WrappingIndex,
};
use vstd::prelude::*;

verus! {

/// Unique identifier of one queued message: the recipient channel and the
/// message's index in that channel's queue.
#[derive(Clone, Copy, PartialEq, Eq, Debug)]
pub struct ParaMessageIndex {
    /// The recipient channel.
    pub para_id: u64,
    /// A message index in the recipient channel's queue.
    pub message_idx: WrappingIndex<MessageIndex>,
}

/// The key of one queue page: the recipient channel and the page's index
/// in that channel's ring buffer.
#[derive(Clone, Copy, PartialEq, Eq, Debug)]
pub struct QueuePageIndex {
    /// The recipient channel.
    pub para_id: u64,
    /// The page index.
    pub page_idx: WrappingIndex<PageIndex>,
}

/// The state of the message window: the occupied message-index range
/// `[first_message_idx, free_message_idx)`.
///
/// Invariant (maintained by the queue engine): the window size always
/// equals the number of messages stored across the channel's pages.
#[derive(Clone, Copy, PartialEq, Eq, Debug)]
pub struct MessageWindowState {
    /// The index of the first message in the queue.
    pub first_message_idx: WrappingIndex<MessageIndex>,
    /// The first free index, one past the last queued message.
    pub free_message_idx: WrappingIndex<MessageIndex>,
}

impl MessageWindowState {
    /// Builds a window state from its two bounds.
    pub fn new(
        first_message_idx: WrappingIndex<MessageIndex>,
        free_message_idx: WrappingIndex<MessageIndex>,
    ) -> (r: MessageWindowState)
        ensures
            r.first_message_idx == first_message_idx,
            r.free_message_idx == free_message_idx,
    {
        MessageWindowState { first_message_idx, free_message_idx }
    }
}

impl Default for MessageWindowState {
    /// The state of a window that has never held a message.
    fn default() -> (r: MessageWindowState)
        ensures
            r.first_message_idx.value == 0,
            r.free_message_idx.value == 0,
    {
        MessageWindowState {
            first_message_idx: WrappingIndex::new(0),
            free_message_idx: WrappingIndex::new(0),
        }
    }
}

/// The state of the ring buffer: the occupied page-index range
/// `[head_page_idx, tail_page_idx)`.
///
/// One value of the index space is kept unused so that a full buffer and
/// an empty buffer remain distinguishable.
#[derive(Clone, Copy, PartialEq, Eq, Debug)]
pub struct RingBufferState {
    /// The index of the first used page.
    pub head_page_idx: WrappingIndex<PageIndex>,
    /// The index of the first unused page; `tail_page_idx - 1` is the
    /// last used page.
    pub tail_page_idx: WrappingIndex<PageIndex>,
}

impl RingBufferState {
    /// Builds a ring buffer state from its two bounds.
    pub fn new(
        head_page_idx: WrappingIndex<PageIndex>,
        tail_page_idx: WrappingIndex<PageIndex>,
    ) -> (r: RingBufferState)
        ensures
            r.head_page_idx == head_page_idx,
            r.tail_page_idx == tail_page_idx,
    {
        RingBufferState { tail_page_idx, head_page_idx }
    }
}

impl Default for RingBufferState {
    /// The state of a ring buffer that has never held a page.
    fn default() -> (r: RingBufferState)
        ensures
            r.head_page_idx.value == 0,
            r.tail_page_idx.value == 0,
    {
        RingBufferState {
            head_page_idx: WrappingIndex::new(0),
            tail_page_idx: WrappingIndex::new(0),
        }
    }
}

/// Basic operations on the occupied page range of one channel's queue.
#[derive(Clone, Copy)]
pub struct RingBuffer {
    /// The channel whose pages this buffer tracks.
    pub para_id: u64,
    /// The occupied page range.
    pub state: RingBufferState,
}

impl RingBuffer {
    /// The head page position.
    pub open spec fn head(&self) -> u64 {
        self.state.head_page_idx.value
    }

    /// The first unused page position.
    pub open spec fn tail(&self) -> u64 {
        self.state.tail_page_idx.value
    }

    /// The number of occupied pages: `tail - head` in the wrapping space.
    pub open spec fn spec_size(&self) -> u64 {
        wrap_dist(self.head(), self.tail())
    }

    /// Builds a ring buffer over the state of the given channel.
    pub fn with_state(state: RingBufferState, para_id: u64) -> (r: RingBuffer)
        ensures
            r.state == state,
            r.para_id == para_id,
    {
        RingBuffer { state, para_id }
    }

    /// Allocates the next page and returns its key.
    ///
    /// Advancing the tail onto the head would lose the distinction
    /// between full and empty; that collision signals violation of the
    /// externally enforced growth bound and is excluded outright rather
    /// than reported as an error.
    pub fn extend(&mut self) -> (r: QueuePageIndex)
        requires
            old(self).spec_size() < u64::MAX,
        ensures
            final(self).para_id == old(self).para_id,
            final(self).head() == old(self).head(),
            final(self).tail() == wrap_add(old(self).tail(), 1),
            final(self).spec_size() == old(self).spec_size() + 1,
            r.para_id == old(self).para_id,
            r.page_idx.value == old(self).tail(),
    {
        // Advance tail to the next unused page.
        self.state.tail_page_idx = self.state.tail_page_idx.wrapping_inc();
        // Return the last used page.
        QueuePageIndex { para_id: self.para_id, page_idx: self.state.tail_page_idx.wrapping_dec() }
    }

    /// Frees up to `count` pages by advancing the head page index. If
    /// `count` is larger than the current size, the buffer is emptied.
    pub fn prune(&mut self, count: u32)
        ensures
            final(self).para_id == old(self).para_id,
            final(self).tail() == old(self).tail(),
            final(self).head() == wrap_offset(
                old(self).head(),
                vstd::math::min(old(self).spec_size() as int, count as int),
            ),
            final(self).spec_size() == old(self).spec_size() - vstd::math::min(
                old(self).spec_size() as int,
                count as int,
            ),
    {
        let size = self.size();
        // Ensure the head cannot overtake the tail.
        let to_prune: u64 = if (count as u64) < size {
            count as u64
        } else {
            size
        };
        self.state.head_page_idx = self.state.head_page_idx.wrapping_add(WrappingIndex::new(
            to_prune,
        ));
    }

    /// Frees the first used page, returning its key, or returns `None`
    /// and changes nothing if the buffer is empty.
    pub fn pop_front(&mut self) -> (r: Option<QueuePageIndex>)
        ensures
            final(self).para_id == old(self).para_id,
            final(self).tail() == old(self).tail(),
            old(self).spec_size() == 0 ==> r is None && *final(self) == *old(self),
            old(self).spec_size() > 0 ==> {
                &&& r matches Some(p) && p.para_id == old(self).para_id && p.page_idx.value == old(
                    self,
                ).head()
                &&& final(self).head() == wrap_add(old(self).head(), 1)
                &&& final(self).spec_size() == old(self).spec_size() - 1
            },
    {
        let page = self.front();

        if page.is_some() {
            self.state.head_page_idx = self.state.head_page_idx.wrapping_inc();
        }

        page
    }

    /// Returns the first used page, or `None` if the buffer is empty.
    pub fn front(&self) -> (r: Option<QueuePageIndex>)
        ensures
            self.spec_size() == 0 ==> r is None,
            self.spec_size() > 0 ==> (r matches Some(p) && p.para_id == self.para_id
                && p.page_idx.value == self.head()),
    {
        if self.state.tail_page_idx.value == self.state.head_page_idx.value {
            None
        } else {
            Some(QueuePageIndex { para_id: self.para_id, page_idx: self.state.head_page_idx })
        }
    }

    /// Returns the last used page, or `None` if the buffer is empty.
    pub fn last_used(&self) -> (r: Option<QueuePageIndex>)
        ensures
            self.spec_size() == 0 ==> r is None,
            self.spec_size() > 0 ==> (r matches Some(p) && p.para_id == self.para_id
                && p.page_idx.value == wrap_sub(self.tail(), 1)),
    {
        if self.state.tail_page_idx.value == self.state.head_page_idx.value {
            None
        } else {
            Some(
                QueuePageIndex {
                    para_id: self.para_id,
                    page_idx: self.state.tail_page_idx.wrapping_dec(),
                },
            )
        }
    }

    /// Returns the first unused page, one past the last used page.
    pub fn first_unused(&self) -> (r: QueuePageIndex)
        ensures
            r.para_id == self.para_id,
            r.page_idx.value == self.tail(),
    {
        QueuePageIndex { para_id: self.para_id, page_idx: self.state.tail_page_idx }
    }

    /// Returns the size in pages.
    pub fn size(&self) -> (r: u64)
        ensures
            r == self.spec_size(),
    {
        self.state.tail_page_idx.wrapping_sub(self.state.head_page_idx).value
    }

    /// Returns the wrapped state.
    pub fn into_inner(self) -> (r: RingBufferState)
        ensures
            r == self.state,
    {
        self.state
    }

    /// Starts a consuming enumeration of the page keys from head to tail.
    ///
    /// The enumeration consumes a copy of the buffer; read-only queries
    /// use it on a disposable copy of the state, while the pruning path
    /// advances the live head itself, page by page, through `pop_front`.
    pub fn into_iter(self) -> (r: RingBufferIterator)
        ensures
            r.buffer == self,
    {
        RingBufferIterator { buffer: self }
    }
}

/// An enumerator over the page keys of a ring buffer, from head to tail.
pub struct RingBufferIterator {
    /// The remaining page range.
    pub buffer: RingBuffer,
}

impl RingBufferIterator {
    /// Returns the next page key, or `None` once the range is exhausted.
    pub fn next(&mut self) -> (r: Option<QueuePageIndex>)
        ensures
            final(self).buffer.para_id == old(self).buffer.para_id,
            final(self).buffer.tail() == old(self).buffer.tail(),
            old(self).buffer.spec_size() == 0 ==> r is None && *final(self) == *old(self),
            old(self).buffer.spec_size() > 0 ==> {
                &&& r matches Some(p) && p.para_id == old(self).buffer.para_id
                    && p.page_idx.value == old(self).buffer.head()
                &&& final(self).buffer.head() == wrap_add(old(self).buffer.head(), 1)
                &&& final(self).buffer.spec_size() == old(self).buffer.spec_size() - 1
            },
    {
        self.buffer.pop_front()
    }
}

/// Manages the downward message indexing window of one channel. Every
/// queued message is assigned the next message index when it enters the
/// queue.
pub struct MessageWindow {
    /// The channel whose messages this window counts.
    pub para_id: u64,
    /// The occupied message-index range.
    pub state: MessageWindowState,
}

impl MessageWindow {
    /// The first occupied message position.
    pub open spec fn first_idx(&self) -> u64 {
        self.state.first_message_idx.value
    }

    /// The first free message position.
    pub open spec fn free_idx(&self) -> u64 {
        self.state.free_message_idx.value
    }

    /// The window size: `free - first` in the wrapping space.
    pub open spec fn spec_size(&self) -> u64 {
        wrap_dist(self.first_idx(), self.free_idx())
    }

    /// Builds a window over the state of the given channel.
    pub fn with_state(state: MessageWindowState, para_id: u64) -> (r: MessageWindow)
        ensures
            r.state == state,
            r.para_id == para_id,
    {
        MessageWindow { para_id, state }
    }

    /// Extends the window by `count` messages and returns the index
    /// assigned to the last of them.
    ///
    /// Letting the free index overtake the first index of a non-empty
    /// window would corrupt the count; as with the ring buffer, that case
    /// signals violation of the externally enforced growth bound and is
    /// excluded outright.
    pub fn extend(&mut self, count: u64) -> (r: ParaMessageIndex)
        requires
            old(self).spec_size() > 0 ==> count <= wrap_dist(
                old(self).free_idx(),
                old(self).first_idx(),
            ),
        ensures
            final(self).para_id == old(self).para_id,
            final(self).first_idx() == old(self).first_idx(),
            final(self).free_idx() == wrap_add(old(self).free_idx(), count),
            old(self).spec_size() + count < 0x1_0000_0000_0000_0000 ==> final(self).spec_size()
                == old(self).spec_size() + count,
            r.para_id == old(self).para_id,
            r.message_idx.value == wrap_sub(wrap_add(old(self).free_idx(), count), 1),
            count > 0 ==> r.message_idx.value == wrap_offset(old(self).free_idx(), count - 1),
    {
        self.state.free_message_idx = self.state.free_message_idx.wrapping_add(WrappingIndex::new(
            count,
        ));
        ParaMessageIndex {
            para_id: self.para_id,
            message_idx: self.state.free_message_idx.wrapping_dec(),
        }
    }

    /// Advances the window start by up to `count` messages. Returns the
    /// index of the first message still in the queue, or `None` if the
    /// window is empty after the operation.
    pub fn prune(&mut self, count: u64) -> (r: Option<ParaMessageIndex>)
        ensures
            final(self).para_id == old(self).para_id,
            final(self).free_idx() == old(self).free_idx(),
            final(self).first_idx() == wrap_offset(
                old(self).first_idx(),
                vstd::math::min(old(self).spec_size() as int, count as int),
            ),
            final(self).spec_size() == old(self).spec_size() - vstd::math::min(
                old(self).spec_size() as int,
                count as int,
            ),
            final(self).spec_size() == 0 ==> r is None,
            final(self).spec_size() > 0 ==> (r matches Some(p) && p.para_id == old(
                self,
            ).para_id && p.message_idx.value == final(self).first_idx()),
    {
        let size = self.size();
        let to_prune: u64 = if count < size {
            count
        } else {
            size
        };
        self.state.first_message_idx = self.state.first_message_idx.wrapping_add(
            WrappingIndex::new(to_prune),
        );
        if self.state.first_message_idx.value == self.state.free_message_idx.value {
            None
        } else {
            Some(
                ParaMessageIndex {
                    para_id: self.para_id,
                    message_idx: self.state.first_message_idx,
                },
            )
        }
    }

    /// Returns the size of the message window.
    pub fn size(&self) -> (r: u64)
        ensures
            r == self.spec_size(),
    {
        self.state.free_message_idx.wrapping_sub(self.state.first_message_idx).value
    }

    /// Returns the first message index, or `None` if the window is empty.
    pub fn first(&self) -> (r: Option<ParaMessageIndex>)
        ensures
            self.spec_size() == 0 ==> r is None,
            self.spec_size() > 0 ==> (r matches Some(p) && p.para_id == self.para_id
                && p.message_idx.value == self.first_idx()),
    {
        if self.size() > 0 {
            Some(
                ParaMessageIndex {
                    para_id: self.para_id,
                    message_idx: self.state.first_message_idx,
                },
            )
        } else {
            None
        }
    }

    /// Returns the first free message index.
    pub fn first_free(&self) -> (r: ParaMessageIndex)
        ensures
            r.para_id == self.para_id,
            r.message_idx.value == self.free_idx(),
    {
        ParaMessageIndex { para_id: self.para_id, message_idx: self.state.free_message_idx }
    }

    /// Returns the wrapped state.
    pub fn into_inner(self) -> (r: MessageWindowState)
        ensures
            r == self.state,
    {
        self.state
    }
}

} // verus!
