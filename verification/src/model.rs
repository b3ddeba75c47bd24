//! The mathematical model of one channel's queue.
//!
//! A channel's persisted state — its ring buffer and window bounds, its
//! pages, its chain heads — is abstracted into a [`ChannelModel`]. The
//! queue engine's contracts are stated over this model, and
//! [`channel_wf`] is the consistency invariant that every operation
//! preserves: the pages cover exactly the occupied page range, the
//! per-message chain heads cover exactly the live window, the window size
//! equals the total number of stored messages, and the stored chain heads
//! are exactly the replay of the hash chain over the live messages.

use crate::indices::{wrap_add, wrap_dist, wrap_offset};
use crate::mqc::{mqc_link, zero_hash_seq};
use vstd::prelude::*;

verus! {

/// A downward message together with the sequence marker under which it
/// was queued.
pub struct InboundDownwardMessage {
    /// The message payload.
    pub msg: Vec<u8>,
    /// The sequence marker (block number) at which it was sent.
    pub sent_at: u32,
}

/// The mathematical value of one queued message.
#[verifier::ext_equal]
pub ghost struct MessageModel {
    /// The message payload.
    pub msg: Seq<u8>,
    /// The sequence marker at which it was sent.
    pub sent_at: u32,
}

impl View for InboundDownwardMessage {
    type V = MessageModel;

    open spec fn view(&self) -> MessageModel {
        MessageModel { msg: self.msg@, sent_at: self.sent_at }
    }
}

impl Clone for InboundDownwardMessage {
    fn clone(&self) -> (r: Self)
        ensures
            r@ == self@,
    {
        let msg = crate::mqc::clone_bytes(&self.msg);
        InboundDownwardMessage { msg, sent_at: self.sent_at }
    }
}

/// The concatenation of the `n` page contents that start at page
/// position `head`.
pub open spec fn pages_concat(
    pages: Map<u64, Seq<MessageModel>>,
    head: u64,
    n: int,
) -> Seq<MessageModel>
    decreases n,
{
    if n <= 0 {
        Seq::empty()
    } else {
        pages[head] + pages_concat(pages, wrap_add(head, 1), n - 1)
    }
}

/// A page concatenation decomposes at its last page.
pub proof fn lemma_pages_concat_snoc(pages: Map<u64, Seq<MessageModel>>, head: u64, n: int)
    requires
        1 <= n < 0x1_0000_0000_0000_0000,
    ensures
        pages_concat(pages, head, n) =~= pages_concat(pages, head, n - 1) + pages[wrap_offset(
            head,
            n - 1,
        )],
    decreases n,
{
    if n == 1 {
        assert(wrap_offset(head, 0) == head);
        assert(pages_concat(pages, wrap_add(head, 1), 0) == Seq::<MessageModel>::empty());
        assert(pages_concat(pages, head, 0) == Seq::<MessageModel>::empty());
        assert(pages_concat(pages, head, 1) =~= pages_concat(pages, head, 0) + pages[wrap_offset(
            head,
            0,
        )]);
    } else {
        lemma_pages_concat_snoc(pages, wrap_add(head, 1), n - 1);
        crate::indices::lemma_offset_offset(head, 1, n - 2);
        assert(pages_concat(pages, wrap_add(head, 1), n - 1) == pages_concat(
            pages,
            wrap_add(head, 1),
            n - 2,
        ) + pages[wrap_offset(head, n - 1)]);
        assert(pages_concat(pages, head, n) =~= pages_concat(pages, head, n - 1) + pages[
            wrap_offset(head, n - 1)]);
    }
}

/// Two page stores that agree on a page range concatenate to the same
/// message sequence over that range.
pub proof fn lemma_pages_concat_congruent(
    p1: Map<u64, Seq<MessageModel>>,
    p2: Map<u64, Seq<MessageModel>>,
    head: u64,
    n: int,
)
    requires
        n < 0x1_0000_0000_0000_0000,
        forall|i: int| 0 <= i < n ==> p1[#[trigger] wrap_offset(head, i)] == p2[wrap_offset(
            head,
            i,
        )],
    ensures
        pages_concat(p1, head, n) == pages_concat(p2, head, n),
    decreases n,
{
    if n > 0 {
        assert(wrap_offset(head, 0) == head);
        assert(forall|i: int|
            0 <= i < n - 1 ==> p1[#[trigger] wrap_offset(wrap_add(head, 1), i)] == p2[wrap_offset(
                wrap_add(head, 1),
                i,
            )]) by {
            assert forall|i: int| 0 <= i < n - 1 implies p1[#[trigger] wrap_offset(
                wrap_add(head, 1),
                i,
            )] == p2[wrap_offset(wrap_add(head, 1), i)] by {
                crate::indices::lemma_offset_offset(head, 1, i);
            }
        }
        lemma_pages_concat_congruent(p1, p2, wrap_add(head, 1), n - 1);
    }
}

/// Dropping the first page of a range drops exactly its messages from the
/// concatenation.
pub proof fn lemma_pages_concat_skip_first(pages: Map<u64, Seq<MessageModel>>, head: u64, n: int)
    requires
        n >= 1,
    ensures
        pages_concat(pages, head, n).skip(pages[head].len() as int) =~= pages_concat(
            pages,
            wrap_add(head, 1),
            n - 1,
        ),
        pages_concat(pages, head, n).len() == pages[head].len() + pages_concat(
            pages,
            wrap_add(head, 1),
            n - 1,
        ).len(),
{
}

/// The head of the hash chain that starts at `prior` after the first `i`
/// messages of `msgs` have been appended.
pub open spec fn chain_from(prior: Seq<u8>, msgs: Seq<MessageModel>, i: int) -> Seq<u8>
    decreases i,
{
    if i <= 0 {
        prior
    } else {
        mqc_link(chain_from(prior, msgs, i - 1), msgs[i - 1].sent_at, msgs[i - 1].msg)
    }
}

/// The chain head after `i` messages depends only on the first `i`
/// messages.
pub proof fn lemma_chain_from_congruent(
    prior: Seq<u8>,
    s1: Seq<MessageModel>,
    s2: Seq<MessageModel>,
    i: int,
)
    requires
        forall|j: int| 0 <= j < i ==> s1[j] == s2[j],
    ensures
        chain_from(prior, s1, i) == chain_from(prior, s2, i),
    decreases i,
{
    if i > 0 {
        lemma_chain_from_congruent(prior, s1, s2, i - 1);
    }
}

/// Replaying the chain over a suffix of the messages, starting from the
/// chain head reached at the start of that suffix, reaches the same heads
/// as replaying the whole chain.
pub proof fn lemma_chain_from_shift(prior: Seq<u8>, msgs: Seq<MessageModel>, k: int, i: int)
    requires
        0 <= k,
        0 <= i,
        k + i <= msgs.len(),
    ensures
        chain_from(chain_from(prior, msgs, k), msgs.skip(k), i) == chain_from(prior, msgs, k + i),
    decreases i,
{
    if i > 0 {
        lemma_chain_from_shift(prior, msgs, k, i - 1);
        assert(msgs.skip(k)[i - 1] == msgs[k + i - 1]);
    }
}

/// The chain is deterministic: replaying it over an identical message
/// sequence from an identical prior head yields an identical sequence of
/// heads. Each head is a pure function of the inputs; the chain keeps no
/// hidden state.
pub proof fn lemma_mqc_replay_deterministic(
    prior1: Seq<u8>,
    msgs1: Seq<MessageModel>,
    prior2: Seq<u8>,
    msgs2: Seq<MessageModel>,
)
    requires
        prior1 == prior2,
        msgs1 == msgs2,
    ensures
        forall|i: int| #[trigger]
            chain_from(prior1, msgs1, i) == chain_from(prior2, msgs2, i),
{
}

/// The mathematical state of one channel's queue.
#[verifier::ext_equal]
pub ghost struct ChannelModel {
    /// The first occupied page position.
    pub head_page: u64,
    /// The first unoccupied page position.
    pub tail_page: u64,
    /// The message index of the first live message.
    pub first_msg: u64,
    /// The first free message index.
    pub free_msg: u64,
    /// The stored pages, keyed by page position.
    pub pages: Map<u64, Seq<MessageModel>>,
    /// The global chain head, covering the channel's entire history.
    pub mqc_head: Seq<u8>,
    /// The chain head recorded at each live message index.
    pub mqc_by_msg: Map<u64, Seq<u8>>,
    /// The chain head as it was before the first live message; the
    /// replay of the chain over the live messages starts here.
    pub prior_head: Seq<u8>,
}

impl ChannelModel {
    /// The number of occupied pages.
    pub open spec fn page_count(self) -> u64 {
        wrap_dist(self.head_page, self.tail_page)
    }

    /// The number of live messages.
    pub open spec fn len(self) -> u64 {
        wrap_dist(self.first_msg, self.free_msg)
    }

    /// The `i`-th occupied page, counted from the head.
    pub open spec fn page_at(self, i: int) -> Seq<MessageModel> {
        self.pages[wrap_offset(self.head_page, i)]
    }

    /// All live messages in order: the concatenation of the occupied
    /// pages from head to tail.
    pub open spec fn msgs(self) -> Seq<MessageModel> {
        pages_concat(self.pages, self.head_page, self.page_count() as int)
    }

    /// The chain head reached after the first `i` live messages,
    /// starting from the prior head.
    pub open spec fn chain_at(self, i: int) -> Seq<u8> {
        chain_from(self.prior_head, self.msgs(), i)
    }
}

/// The state of a channel that has never been written to, and of a
/// retired channel.
pub open spec fn empty_channel_model() -> ChannelModel {
    ChannelModel {
        head_page: 0,
        tail_page: 0,
        first_msg: 0,
        free_msg: 0,
        pages: Map::empty(),
        mqc_head: zero_hash_seq(),
        mqc_by_msg: Map::empty(),
        prior_head: zero_hash_seq(),
    }
}

/// The consistency invariant of one channel, for page capacity `cap`:
///
/// - the live window is far smaller than the index space;
/// - page records exist exactly for the occupied page range; none is
///   empty or over capacity, and only the first and the last occupied
///   page may be less than full;
/// - the window size equals the total number of stored messages;
/// - per-message chain heads exist exactly for the live window, and
///   replaying the chain from the prior head over the live messages
///   reproduces them in order;
/// - the global chain head is the replay over all live messages.
pub open spec fn channel_wf(m: ChannelModel, cap: u32) -> bool {
    &&& cap >= 1
    &&& m.len() <= u32::MAX
    &&& m.page_count() <= m.len()
    &&& m.pages.dom() == Set::new(|k: u64| wrap_dist(m.head_page, k) < m.page_count())
    &&& m.mqc_by_msg.dom() == Set::new(|k: u64| wrap_dist(m.first_msg, k) < m.len())
    &&& forall|i: int| 0 <= i < m.page_count() ==> 1 <= #[trigger] m.page_at(i).len() <= cap
    &&& forall|i: int| 0 < i < m.page_count() - 1 ==> #[trigger] m.page_at(i).len() == cap
    &&& m.msgs().len() == m.len()
    &&& forall|i: int|
        0 <= i < m.len() ==> m.mqc_by_msg[#[trigger] wrap_offset(m.first_msg, i)] == m.chain_at(
            i + 1,
        )
    &&& m.mqc_head == m.chain_at(m.len() as int)
}

/// An empty channel is consistent.
pub proof fn lemma_empty_channel_wf(cap: u32)
    requires
        cap >= 1,
    ensures
        channel_wf(empty_channel_model(), cap),
{
    let m = empty_channel_model();
    assert(m.pages.dom() =~= Set::new(|k: u64| wrap_dist(m.head_page, k) < m.page_count()));
    assert(m.mqc_by_msg.dom() =~= Set::new(|k: u64| wrap_dist(m.first_msg, k) < m.len()));
}

/// All pages except possibly the last are full. This holds of every
/// channel that has only ever been extended: enqueuing keeps it, and a
/// fresh channel has no pages. Pruning can leave the first page partial,
/// after which it no longer holds.
pub open spec fn densely_paged(m: ChannelModel, cap: u32) -> bool {
    forall|i: int| 0 <= i < m.page_count() - 1 ==> #[trigger] m.page_at(i).len() == cap
}

/// How one enqueue of the message `(payload, sent_at)` transforms a
/// channel: the window grows by one at the free end, the new chain head
/// links the previous head with the message, the head is recorded at the
/// new message's index, and the message lands in the tail page if that
/// page exists and has room, else in a freshly allocated page.
pub open spec fn enqueue_transition(
    m: ChannelModel,
    m2: ChannelModel,
    payload: Seq<u8>,
    sent_at: u32,
    cap: u32,
) -> bool {
    let message = MessageModel { msg: payload, sent_at };
    let new_head = mqc_link(m.mqc_head, sent_at, payload);
    &&& m2.first_msg == m.first_msg
    &&& m2.free_msg == wrap_add(m.free_msg, 1)
    &&& m2.head_page == m.head_page
    &&& m2.mqc_head == new_head
    &&& m2.mqc_by_msg == m.mqc_by_msg.insert(m.free_msg, new_head)
    &&& m2.prior_head == m.prior_head
    &&& if m.page_count() > 0 && m.page_at(m.page_count() - 1).len() < cap {
        &&& m2.tail_page == m.tail_page
        &&& m2.pages == m.pages.insert(
            wrap_offset(m.head_page, m.page_count() - 1),
            m.page_at(m.page_count() - 1).push(message),
        )
    } else {
        &&& m2.tail_page == wrap_add(m.tail_page, 1)
        &&& m2.pages == m.pages.insert(m.tail_page, seq![message])
    }
}

/// The total number of messages in the first `d` pages of a channel.
pub open spec fn prefix_len(m: ChannelModel, d: int) -> int {
    pages_concat(m.pages, m.head_page, d).len() as int
}

/// A concatenation of nonempty pages holds at least one message per page.
pub proof fn lemma_concat_len_ge_count(pages: Map<u64, Seq<MessageModel>>, head: u64, n: int)
    requires
        0 <= n < 0x1_0000_0000_0000_0000,
        forall|i: int| 0 <= i < n ==> pages[#[trigger] wrap_offset(head, i)].len() >= 1,
    ensures
        pages_concat(pages, head, n).len() >= n,
    decreases n,
{
    if n > 0 {
        assert(wrap_offset(head, 0) == head);
        assert forall|i: int| 0 <= i < n - 1 implies pages[#[trigger] wrap_offset(
            wrap_add(head, 1),
            i,
        )].len() >= 1 by {
            crate::indices::lemma_offset_offset(head, 1, i);
        }
        lemma_concat_len_ge_count(pages, wrap_add(head, 1), n - 1);
    }
}

/// How pruning `k` messages transforms a channel: the window start
/// advances by `k`; every page whose messages are all consumed is
/// dropped from the front of the ring; a page consumed only in part
/// loses exactly its consumed prefix; the chain heads of the pruned
/// messages are deleted; the global head is untouched, and the replay of
/// the chain over the remaining messages now starts at the head reached
/// after the pruned messages.
pub open spec fn prune_transition(m: ChannelModel, m2: ChannelModel, k: int) -> bool {
    let d = wrap_dist(m.head_page, m2.head_page) as int;
    &&& m2.free_msg == m.free_msg
    &&& m2.first_msg == wrap_offset(m.first_msg, k)
    &&& m2.tail_page == m.tail_page
    &&& d <= m.page_count()
    &&& m2.page_count() == m.page_count() - d
    &&& prefix_len(m, d) <= k
    &&& (d < m.page_count() ==> k < prefix_len(m, d) + m.page_at(d).len())
    &&& m2.pages.dom() == Set::new(|key: u64| wrap_dist(m2.head_page, key) < m2.page_count())
    &&& (m2.page_count() > 0 ==> m2.page_at(0) == m.page_at(d).skip(k - prefix_len(m, d)))
    &&& (forall|i: int| 1 <= i < m2.page_count() ==> m2.page_at(i) == m.page_at(d + i))
    &&& m2.msgs() == m.msgs().skip(k)
    &&& m2.mqc_head == m.mqc_head
    &&& m2.prior_head == chain_from(m.prior_head, m.msgs(), k)
    &&& m2.mqc_by_msg == m.mqc_by_msg.remove_keys(
        Set::new(|key: u64| wrap_dist(m.first_msg, key) < k),
    )
}

/// Pruning a consistent channel keeps it consistent and shortens the
/// window by exactly the pruned count.
pub proof fn lemma_prune_preserves_wf(m: ChannelModel, m2: ChannelModel, k: int, cap: u32)
    requires
        channel_wf(m, cap),
        0 <= k <= m.len(),
        prune_transition(m, m2, k),
    ensures
        channel_wf(m2, cap),
        m2.len() == m.len() - k,
{
    let d = wrap_dist(m.head_page, m2.head_page) as int;
    let len = m.len() as int;
    let msgs1 = m.msgs();
    let msgs2 = m2.msgs();

    crate::indices::lemma_dist_shift(m.first_msg, m.free_msg, k);
    assert(m2.len() == m.len() - k);

    // Every remaining page is nonempty and within capacity.
    assert forall|i: int| 0 <= i < m2.page_count() implies 1 <= #[trigger] m2.page_at(i).len()
        <= cap by {
        if i == 0 {
            assert(m2.page_at(0) == m.page_at(d).skip(k - prefix_len(m, d)));
            assert(1 <= m.page_at(d).len() <= cap);
        } else {
            assert(m2.page_at(i) == m.page_at(d + i));
            assert(1 <= m.page_at(d + i).len() <= cap);
        }
    }

    // Only the first and the last remaining page may be less than full.
    assert forall|i: int| 0 < i < m2.page_count() - 1 implies #[trigger] m2.page_at(i).len()
        == cap by {
        assert(m2.page_at(i) == m.page_at(d + i));
        assert(0 < d + i < m.page_count() - 1);
        assert(m.page_at(d + i).len() == cap);
    }

    // The page count cannot exceed the message count.
    assert(m2.msgs().len() == m2.len());
    assert(m2.page_count() <= m2.len()) by {
        assert forall|i: int| 0 <= i < m2.page_count() implies m2.pages[#[trigger] wrap_offset(
            m2.head_page,
            i,
        )].len() >= 1 by {
            assert(1 <= m2.page_at(i).len());
        }
        lemma_concat_len_ge_count(m2.pages, m2.head_page, m2.page_count() as int);
    }

    // The chain-head records cover exactly the remaining window, and the
    // replay over the remaining messages reproduces them.
    assert(m2.mqc_by_msg.dom() =~= Set::new(|key: u64| wrap_dist(m2.first_msg, key) < m2.len()))
        by {
        assert forall|key: u64|
            m2.mqc_by_msg.dom().contains(key) == (wrap_dist(m2.first_msg, key)
                < m2.len()) by {
            crate::indices::lemma_dist_shift(m.first_msg, key, k);
            assert(m.mqc_by_msg.dom().contains(key) == (wrap_dist(m.first_msg, key) < m.len()));
        }
    }

    assert forall|i: int|
        0 <= i < m2.len() implies m2.mqc_by_msg[#[trigger] wrap_offset(m2.first_msg, i)]
        == m2.chain_at(i + 1) by {
        crate::indices::lemma_offset_offset(m.first_msg, k, i);
        let key = wrap_offset(m.first_msg, k + i);
        crate::indices::lemma_dist_after_offset(m.first_msg, k + i);
        assert(wrap_dist(m.first_msg, key) == k + i >= k);
        assert(m2.mqc_by_msg[key] == m.mqc_by_msg[key]);
        assert(m.mqc_by_msg[key] == m.chain_at(k + i + 1));
        lemma_chain_from_shift(m.prior_head, msgs1, k, i + 1);
    }

    // The global head is the replay over all remaining messages.
    assert(m2.mqc_head == m2.chain_at(m2.len() as int)) by {
        lemma_chain_from_shift(m.prior_head, msgs1, k, len - k);
    }
}

/// With all pages full but the last, the messages of the first `d` pages
/// number exactly `d` times the capacity.
proof fn lemma_dense_prefix(m: ChannelModel, cap: u32, d: int)
    requires
        channel_wf(m, cap),
        densely_paged(m, cap),
        0 <= d <= m.page_count() - 1,
    ensures
        prefix_len(m, d) == d * (cap as int),
    decreases d,
{
    if d > 0 {
        lemma_dense_prefix(m, cap, d - 1);
        lemma_pages_concat_snoc(m.pages, m.head_page, d);
        assert(pages_concat(m.pages, m.head_page, d) == pages_concat(m.pages, m.head_page, d - 1)
            + m.pages[crate::indices::wrap_offset(m.head_page, d - 1)]);
        assert(prefix_len(m, d) == prefix_len(m, d - 1) + m.page_at(d - 1).len());
        assert(m.page_at(d - 1).len() == cap);
        assert((d - 1) * (cap as int) + cap == d * (cap as int)) by (nonlinear_arith);
    } else {
        assert(pages_concat(m.pages, m.head_page, 0) == Seq::<MessageModel>::empty());
    }
}

/// With all pages full but the last — as in a channel that has only ever
/// been extended, never pruned — the page count is exactly the message
/// count divided by the page capacity, rounded up; and no page holds
/// more than the capacity.
pub proof fn lemma_dense_page_count(m: ChannelModel, cap: u32)
    requires
        channel_wf(m, cap),
        densely_paged(m, cap),
    ensures
        m.page_count() as int == (m.len() + cap - 1) / (cap as int),
{
    let pc = m.page_count() as int;
    let len = m.len() as int;
    if pc == 0 {
        assert(m.msgs() == pages_concat(m.pages, m.head_page, 0));
        assert(m.msgs().len() == 0);
        assert(len == 0);
        assert((0 + cap - 1) / (cap as int) == 0) by (nonlinear_arith)
            requires
                cap >= 1,
        ;
    } else {
        lemma_dense_prefix(m, cap, pc - 1);
        lemma_pages_concat_snoc(m.pages, m.head_page, pc);
        assert(pages_concat(m.pages, m.head_page, pc) == pages_concat(m.pages, m.head_page, pc - 1)
            + m.pages[crate::indices::wrap_offset(m.head_page, pc - 1)]);
        let last = m.page_at(pc - 1).len() as int;
        assert(1 <= last <= cap);
        assert(len == prefix_len(m, pc - 1) + last);
        assert(len == (pc - 1) * (cap as int) + last);
        assert((len + cap - 1) / (cap as int) == pc) by (nonlinear_arith)
            requires
                len == (pc - 1) * (cap as int) + last,
                1 <= last <= cap as int,
                cap >= 1,
                pc >= 1,
        ;
    }
}

/// Pruning at least the full queue length is safe and empties the queue
/// entirely: the window's first index meets its free index and the ring
/// buffer's head page meets its tail page. A later prune of an empty
/// queue finds nothing left to do, so pruning past the end is idempotent.
pub proof fn lemma_prune_all_empties(m: ChannelModel, m2: ChannelModel, cap: u32)
    requires
        channel_wf(m, cap),
        channel_wf(m2, cap),
        prune_transition(m, m2, m.len() as int),
    ensures
        m2.len() == 0,
        m2.first_msg == m2.free_msg,
        m2.page_count() == 0,
        m2.head_page == m2.tail_page,
{
    lemma_prune_preserves_wf(m, m2, m.len() as int, cap);
    crate::indices::lemma_dist_zero(m2.first_msg, m2.free_msg);
    crate::indices::lemma_dist_zero(m2.head_page, m2.tail_page);
}

/// Enqueuing one message into a consistent channel that has room left in
/// the index space keeps it consistent: it grows the window by exactly
/// one message, appends that message to the live message sequence, and
/// keeps the density of the pages (all pages full but the last) if it
/// held before.
pub proof fn lemma_enqueue_preserves_wf(
    m: ChannelModel,
    m2: ChannelModel,
    payload: Seq<u8>,
    sent_at: u32,
    cap: u32,
)
    requires
        channel_wf(m, cap),
        m.len() < u32::MAX,
        enqueue_transition(m, m2, payload, sent_at, cap),
    ensures
        channel_wf(m2, cap),
        m2.len() == m.len() + 1,
        m2.msgs() == m.msgs().push(MessageModel { msg: payload, sent_at }),
        densely_paged(m, cap) ==> densely_paged(m2, cap),
    decreases 0int,
{
    let message = MessageModel { msg: payload, sent_at };
    let pc = m.page_count() as int;
    let len = m.len() as int;

    crate::indices::lemma_dist_extend(m.first_msg, m.free_msg);
    assert(m2.len() == m.len() + 1);

    // The live message sequence grows by exactly the new message.
    if m.page_count() > 0 && m.page_at(pc - 1).len() < cap {
        let last_key = wrap_offset(m.head_page, pc - 1);
        assert(m2.page_count() == m.page_count());
        assert forall|i: int| 0 <= i < pc - 1 implies m2.pages[#[trigger] wrap_offset(
            m.head_page,
            i,
        )] == m.pages[wrap_offset(m.head_page, i)] by {
            crate::indices::lemma_offset_injective(m.head_page, i, pc - 1);
        }
        lemma_pages_concat_congruent(m2.pages, m.pages, m.head_page, pc - 1);
        lemma_pages_concat_snoc(m2.pages, m.head_page, pc);
        lemma_pages_concat_snoc(m.pages, m.head_page, pc);
        assert(m2.pages[last_key] == m.page_at(pc - 1).push(message));
        assert(m2.msgs() =~= m.msgs().push(message));
    } else {
        crate::indices::lemma_add_dist(m.head_page, m.tail_page);
        crate::indices::lemma_wrap_add_is_offset(m.head_page, m.page_count());
        assert(wrap_offset(m.head_page, pc) == m.tail_page);
        crate::indices::lemma_dist_extend(m.head_page, m.tail_page);
        assert(m2.page_count() == m.page_count() + 1);
        assert forall|i: int| 0 <= i < pc implies m2.pages[#[trigger] wrap_offset(
            m.head_page,
            i,
        )] == m.pages[wrap_offset(m.head_page, i)] by {
            crate::indices::lemma_offset_injective(m.head_page, i, pc);
        }
        lemma_pages_concat_congruent(m2.pages, m.pages, m.head_page, pc);
        lemma_pages_concat_snoc(m2.pages, m.head_page, pc + 1);
        assert(m2.pages[wrap_offset(m.head_page, pc)] =~= seq![message]);
        assert(m2.msgs() =~= m.msgs().push(message));
    }

    // The page records cover exactly the occupied page range.
    assert(m2.pages.dom() =~= Set::new(
        |k: u64| wrap_dist(m2.head_page, k) < m2.page_count(),
    )) by {
        assert forall|k: u64|
            m2.pages.dom().contains(k) == (wrap_dist(m2.head_page, k)
                < m2.page_count()) by {
            crate::indices::lemma_add_dist(m.head_page, k);
            crate::indices::lemma_wrap_add_is_offset(m.head_page, wrap_dist(m.head_page, k));
            assert(m.pages.dom().contains(k) == (wrap_dist(m.head_page, k) < m.page_count()));
            if m.page_count() > 0 && m.page_at(pc - 1).len() < cap {
                crate::indices::lemma_dist_after_offset(m.head_page, pc - 1);
            } else {
                crate::indices::lemma_dist_after_offset(m.head_page, pc);
            }
        }
    }

    // The chain-head records cover exactly the live window.
    crate::indices::lemma_add_dist(m.first_msg, m.free_msg);
    crate::indices::lemma_wrap_add_is_offset(m.first_msg, m.len());
    assert(wrap_offset(m.first_msg, len) == m.free_msg);
    assert(m2.mqc_by_msg.dom() =~= Set::new(|k: u64| wrap_dist(m2.first_msg, k) < m2.len())) by {
        assert forall|k: u64|
            m2.mqc_by_msg.dom().contains(k) == (wrap_dist(m2.first_msg, k) < m2.len()) by {
            crate::indices::lemma_add_dist(m.first_msg, k);
            crate::indices::lemma_wrap_add_is_offset(m.first_msg, wrap_dist(m.first_msg, k));
            assert(m.mqc_by_msg.dom().contains(k) == (wrap_dist(m.first_msg, k) < m.len()));
            crate::indices::lemma_dist_after_offset(m.first_msg, len);
        }
    }

    // No page is empty or over capacity, and interior pages keep their
    // fullness.
    assert forall|i: int| 0 <= i < m2.page_count() implies 1 <= #[trigger] m2.page_at(i).len()
        <= cap by {
        if m.page_count() > 0 && m.page_at(pc - 1).len() < cap {
            if i < pc - 1 {
                crate::indices::lemma_offset_injective(m.head_page, i, pc - 1);
                assert(m2.page_at(i) == m.page_at(i));
            } else {
                assert(m2.page_at(i) == m.page_at(pc - 1).push(message));
                assert(1 <= m.page_at(pc - 1).len() <= cap);
            }
        } else {
            if i < pc {
                crate::indices::lemma_offset_injective(m.head_page, i, pc);
                assert(m2.page_at(i) == m.page_at(i));
            } else {
                assert(m2.page_at(i) == seq![message]);
            }
        }
    }

    // Only the first and the last page may be less than full.
    assert forall|i: int| 0 < i < m2.page_count() - 1 implies #[trigger] m2.page_at(i).len()
        == cap by {
        if m.page_count() > 0 && m.page_at(pc - 1).len() < cap {
            crate::indices::lemma_offset_injective(m.head_page, i, pc - 1);
            assert(m2.page_at(i) == m.page_at(i));
            assert(m.page_at(i).len() == cap);
        } else {
            crate::indices::lemma_offset_injective(m.head_page, i, pc);
            assert(m2.page_at(i) == m.page_at(i));
            if i < pc - 1 {
                assert(m.page_at(i).len() == cap);
            } else {
                assert(1 <= m.page_at(i).len() <= cap);
                assert(!(m.page_at(pc - 1).len() < cap));
            }
        }
    }

    // Replaying the chain over the extended message sequence reproduces
    // every stored head; the heads of the old messages are untouched and
    // the new message's head extends the chain by one link.
    let msgs2 = m2.msgs();
    let msgs1 = m.msgs();
    assert(msgs2 == msgs1.push(message));
    assert forall|i: int|
        0 <= i < m2.len() implies m2.mqc_by_msg[#[trigger] wrap_offset(m2.first_msg, i)]
        == m2.chain_at(i + 1) by {
        if i < len {
            lemma_chain_from_congruent(m.prior_head, msgs1, msgs2, i + 1);
            crate::indices::lemma_offset_injective(m.first_msg, i, len);
            assert(m.mqc_by_msg[wrap_offset(m.first_msg, i)] == m.chain_at(i + 1));
        } else {
            assert(wrap_offset(m.first_msg, i) == m.free_msg);
            assert(m2.mqc_by_msg[m.free_msg] == mqc_link(m.mqc_head, sent_at, payload));
            lemma_chain_from_congruent(m.prior_head, msgs1, msgs2, len);
            assert(m.mqc_head == chain_from(m.prior_head, msgs1, len));
            assert(chain_from(m.prior_head, msgs2, len + 1) == mqc_link(
                chain_from(m.prior_head, msgs2, len),
                msgs2[len].sent_at,
                msgs2[len].msg,
            ));
        }
    }

    // The global head is the replay over all live messages.
    assert(m2.mqc_head == m2.chain_at(m2.len() as int)) by {
        lemma_chain_from_congruent(m.prior_head, msgs1, msgs2, len);
        assert(chain_from(m.prior_head, msgs2, len + 1) == mqc_link(
            chain_from(m.prior_head, msgs2, len),
            msgs2[len].sent_at,
            msgs2[len].msg,
        ));
    }

    // Density of the pages is kept.
    if densely_paged(m, cap) {
        assert forall|i: int| 0 <= i < m2.page_count() - 1 implies #[trigger] m2.page_at(i).len()
            == cap by {
            if m.page_count() > 0 && m.page_at(pc - 1).len() < cap {
                crate::indices::lemma_offset_injective(m.head_page, i, pc - 1);
                assert(m2.page_at(i) == m.page_at(i));
                assert(m.page_at(i).len() == cap);
            } else {
                crate::indices::lemma_offset_injective(m.head_page, i, pc);
                assert(m2.page_at(i) == m.page_at(i));
                if i < pc - 1 {
                    assert(m.page_at(i).len() == cap);
                } else {
                    assert(1 <= m.page_at(i).len() <= cap);
                    assert(!(m.page_at(pc - 1).len() < cap));
                }
            }
        }
    }
}

} // verus!
