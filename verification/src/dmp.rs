//! The queue engine: per-channel orchestration of the ring buffer, the
//! message window, the page store and the message queue chain.
//!
//! Every operation loads a channel's state, computes the new state and
//! persists it as its final step, or performs no mutation at all when a
//! validation check fails. Channels are fully independent: all state is
//! partitioned by channel identifier, and an operation on one channel
//! never touches another.

use crate::indices::{wrap_add, wrap_dist, wrap_offset, MessageIndex, PageIndex, WrappingIndex};
use crate::model::{
    channel_wf, empty_channel_model, enqueue_transition, ChannelModel, InboundDownwardMessage,
    MessageModel,
};
use crate::mqc::{clone_bytes, zero_hash, zero_hash_seq};
use crate::ringbuf::{
    MessageWindow, MessageWindowState, ParaMessageIndex, QueuePageIndex, RingBuffer,
    RingBufferState,
};
use crate::weights::{RuntimeDbWeight, Weight};
use std::collections::HashMap;
use vstd::prelude::*;

verus! {

broadcast use vstd::std_specs::hash::group_hash_axioms;

/// The suggested queue page capacity: the number of messages one page can
/// hold. The page capacity trades the per-message storage overhead
/// against the memory footprint of reading one page.
pub const QUEUE_PAGE_CAPACITY: u32 = 32;

/// The state of one channel's queue, split into its two sub-states: the
/// ring buffer bounds and the message window bounds. This pair is the
/// single atomic unit of persisted position state.
#[derive(Clone, Copy, PartialEq, Eq, Debug)]
pub struct QueueState {
    /// The occupied page range.
    pub ring_buffer_state: RingBufferState,
    /// The occupied message-index range.
    pub message_window_state: MessageWindowState,
}

impl Default for QueueState {
    /// The state of a channel that has never been written to.
    fn default() -> (r: QueueState)
        ensures
            r.ring_buffer_state.head_page_idx.value == 0,
            r.ring_buffer_state.tail_page_idx.value == 0,
            r.message_window_state.first_message_idx.value == 0,
            r.message_window_state.free_message_idx.value == 0,
    {
        QueueState {
            ring_buffer_state: RingBufferState::default(),
            message_window_state: MessageWindowState::default(),
        }
    }
}

/// An error when queueing a downward message.
#[derive(Clone, Copy, PartialEq, Eq, Debug)]
pub enum QueueDownwardMessageError {
    /// The message being sent exceeds the configured maximum message size.
    ExceedsMaxMessageSize,
}

/// An error returned by the acceptance check on a consumer's processed
/// message count.
#[derive(Clone, Copy, PartialEq, Eq, Debug)]
pub enum ProcessedDownwardMessagesAcceptanceErr {
    /// If there are pending messages, the processed count must be at
    /// least 1: a consumer with pending messages must make progress every
    /// round.
    AdvancementRule,
    /// The processed count must not be greater than the number of pending
    /// messages.
    Underflow {
        /// The count the consumer claimed to have processed.
        processed_downward_messages: u32,
        /// The actual queue length.
        dmq_length: u32,
    },
}

/// The host configuration values the queue engine depends on.
#[derive(Clone, Copy, PartialEq, Eq, Structural, Debug)]
pub struct HostConfiguration {
    /// The maximum size, in bytes, of a queued message.
    pub max_downward_message_size: u32,
}

/// The page bounds of one bounded read of a channel's queue.
#[derive(Clone, Copy, PartialEq, Eq, Structural, Debug)]
pub struct DmqContentsBounds {
    /// How many pages to skip, from the first used page of the queue.
    pub start_page_index: u32,
    /// How many pages to read.
    pub page_count: u32,
}

/// The mathematical value of a stored page map.
pub open spec fn page_store_model(pages: Map<u64, Vec<InboundDownwardMessage>>) -> Map<
    u64,
    Seq<MessageModel>,
> {
    pages.map_values(|p: Vec<InboundDownwardMessage>| p@.map_values(|m: InboundDownwardMessage| m@))
}

/// The mathematical value of a stored chain-head map.
pub open spec fn heads_model(heads: Map<u64, Vec<u8>>) -> Map<u64, Seq<u8>> {
    heads.map_values(|h: Vec<u8>| h@)
}

/// All persisted records of one channel: its position state, its pages,
/// its global chain head and its per-message chain heads.
pub struct ChannelQueue {
    /// The ring buffer and message window bounds.
    pub state: QueueState,
    /// The stored pages, keyed by page position.
    pub pages: HashMap<u64, Vec<InboundDownwardMessage>>,
    /// The global chain head, covering the channel's entire history.
    pub mqc_head: Vec<u8>,
    /// The chain head recorded at each live message index.
    pub mqc_by_msg: HashMap<u64, Vec<u8>>,
    /// The chain head as it was before the first live message.
    pub prior_head: Ghost<Seq<u8>>,
}

impl View for ChannelQueue {
    type V = ChannelModel;

    open spec fn view(&self) -> ChannelModel {
        ChannelModel {
            head_page: self.state.ring_buffer_state.head_page_idx.value,
            tail_page: self.state.ring_buffer_state.tail_page_idx.value,
            first_msg: self.state.message_window_state.first_message_idx.value,
            free_msg: self.state.message_window_state.free_message_idx.value,
            pages: page_store_model(self.pages@),
            mqc_head: self.mqc_head@,
            mqc_by_msg: heads_model(self.mqc_by_msg@),
            prior_head: self.prior_head@,
        }
    }
}

impl ChannelQueue {
    /// The records of a channel that has never been written to.
    fn empty() -> (r: ChannelQueue)
        ensures
            r@ == empty_channel_model(),
    {
        let r = ChannelQueue {
            state: QueueState::default(),
            pages: HashMap::new(),
            mqc_head: zero_hash(),
            mqc_by_msg: HashMap::new(),
            prior_head: Ghost(zero_hash_seq()),
        };
        proof {
            assert(r@.pages =~= empty_channel_model().pages);
            assert(r@.mqc_by_msg =~= empty_channel_model().mqc_by_msg);
            assert(r@ =~= empty_channel_model());
        }
        r
    }
}

/// The queue engine. It owns one record of queue state, pages and chain
/// heads per channel, keyed by the channel identifier, and exposes the
/// enqueue, acceptance-check, prune, read and retirement operations.
pub struct Pallet {
    /// The number of messages one page can hold; at least 1.
    pub page_capacity: u32,
    /// The database access costs from which operation costs are computed.
    pub db_weight: RuntimeDbWeight,
    /// Every channel's records, keyed by channel identifier.
    pub channels: HashMap<u64, ChannelQueue>,
}

impl Pallet {
    /// The model of the given channel: the stored records, or the empty
    /// model for a channel that has no record.
    pub open spec fn channel(&self, para: u64) -> ChannelModel {
        if self.channels@.contains_key(para) {
            self.channels@[para]@
        } else {
            empty_channel_model()
        }
    }

    /// The engine invariant: the capacity is positive and every stored
    /// channel record is consistent.
    pub open spec fn wf(&self) -> bool {
        &&& self.page_capacity >= 1
        &&& forall|k: u64|
            self.channels@.contains_key(k) ==> channel_wf(
                #[trigger] self.channels@[k]@,
                self.page_capacity,
            )
    }

    /// Every channel of a consistent engine has a consistent model,
    /// whether or not a record for it is stored.
    pub proof fn lemma_channel_wf(&self, para: u64)
        requires
            self.wf(),
        ensures
            channel_wf(self.channel(para), self.page_capacity),
    {
        if !self.channels@.contains_key(para) {
            crate::model::lemma_empty_channel_wf(self.page_capacity);
        }
    }

    /// Creates an engine with no channels.
    pub fn new(page_capacity: u32, db_weight: RuntimeDbWeight) -> (r: Pallet)
        requires
            page_capacity >= 1,
        ensures
            r.wf(),
            r.page_capacity == page_capacity,
            r.db_weight == db_weight,
            forall|k: u64| r.channel(k) == empty_channel_model(),
    {
        Pallet { page_capacity, db_weight, channels: HashMap::new() }
    }

    /// Returns the persisted queue state of the given channel, or the
    /// default state if the channel has no record.
    pub fn dmp_queue_state(&self, para: u64) -> (r: QueueState)
        ensures
            r.ring_buffer_state.head_page_idx.value == self.channel(para).head_page,
            r.ring_buffer_state.tail_page_idx.value == self.channel(para).tail_page,
            r.message_window_state.first_message_idx.value == self.channel(para).first_msg,
            r.message_window_state.free_message_idx.value == self.channel(para).free_msg,
    {
        match self.channels.get(&para) {
            Some(ch) => ch.state,
            None => QueueState::default(),
        }
    }

    /// Returns the number of pending downward messages addressed to the
    /// given channel: 0 if the channel has no queue.
    pub fn dmq_length(&self, para: u64) -> (r: u32)
        requires
            self.wf(),
        ensures
            r == self.channel(para).len(),
    {
        proof {
            self.lemma_channel_wf(para);
        }
        let state = self.dmp_queue_state(para);
        MessageWindow::with_state(state.message_window_state, para).size() as u32
    }

    /// The cost of one enqueue: the state read, the page read, the
    /// mutations of the chain heads and the page, and the state write.
    pub open spec fn enqueue_weight(dbw: RuntimeDbWeight) -> Weight {
        (Weight { ref_time: 0, proof_size: 0 }).spec_saturating_add(
            dbw.spec_reads_writes(1, 0),
        ).spec_saturating_add(dbw.spec_reads_writes(1, 0)).spec_saturating_add(
            dbw.spec_reads_writes(3, 3),
        ).spec_saturating_add(dbw.spec_reads_writes(1, 1))
    }

    /// Enqueues a downward message to a specific recipient channel.
    ///
    /// The message must not exceed the configured maximum message size,
    /// else nothing is changed and an error is returned. On success the
    /// message is assigned the next message index, the chain head is
    /// advanced over it and recorded at that index, and the message is
    /// appended to the tail page if it has room, else placed as the sole
    /// entry of a freshly allocated page.
    ///
    /// Queueing is possible for a channel that was never seen before: its
    /// record is created on first use. The live window must stay far
    /// smaller than the index space; the externally enforced economic
    /// bound keeps queues short of that limit.
    pub fn queue_downward_message(
        &mut self,
        config: &HostConfiguration,
        para: u64,
        msg: Vec<u8>,
        sent_at: u32,
    ) -> (r: Result<Weight, QueueDownwardMessageError>)
        requires
            old(self).wf(),
            msg@.len() <= u32::MAX,
            old(self).channel(para).len() < u32::MAX,
        ensures
            final(self).wf(),
            final(self).page_capacity == old(self).page_capacity,
            final(self).db_weight == old(self).db_weight,
            forall|k: u64| k != para ==> final(self).channel(k) == old(self).channel(k),
            msg@.len() > config.max_downward_message_size ==> r == Result::<
                Weight,
                QueueDownwardMessageError,
            >::Err(QueueDownwardMessageError::ExceedsMaxMessageSize) && final(self).channel(para)
                == old(self).channel(para),
            msg@.len() <= config.max_downward_message_size ==> {
                &&& r == Result::<Weight, QueueDownwardMessageError>::Ok(
                    Self::enqueue_weight(old(self).db_weight),
                )
                &&& enqueue_transition(
                    old(self).channel(para),
                    final(self).channel(para),
                    msg@,
                    sent_at,
                    old(self).page_capacity,
                )
                &&& final(self).channel(para).len() == old(self).channel(para).len() + 1
                &&& final(self).channel(para).msgs() == old(self).channel(para).msgs().push(
                    MessageModel { msg: msg@, sent_at },
                )
                &&& crate::model::densely_paged(old(self).channel(para), old(self).page_capacity)
                    ==> crate::model::densely_paged(
                    final(self).channel(para),
                    final(self).page_capacity,
                )
            },
    {
        let ghost payload = msg@;
        let ghost m0 = old(self).channel(para);
        let ghost cap = self.page_capacity;

        // Check whether the message is oversized.
        let serialized_len = msg.len() as u32;
        if serialized_len > config.max_downward_message_size {
            return Err(QueueDownwardMessageError::ExceedsMaxMessageSize);
        }

        proof {
            self.lemma_channel_wf(para);
        }

        let mut weight = Weight::zero();
        // Load every record of the channel; a channel that was never
        // seen starts from the empty record.
        let mut ch = match self.channels.remove(&para) {
            Some(c) => c,
            None => ChannelQueue::empty(),
        };
        proof {
            assert(ch@ == m0);
        }
        weight = weight.saturating_add(self.db_weight.reads_writes(1, 0));

        let mut ring_buf = RingBuffer::with_state(ch.state.ring_buffer_state, para);
        let mut message_window = MessageWindow::with_state(ch.state.message_window_state, para);

        // Obtain the new link in the chain and update the head.
        let new_head = crate::mqc::next_mqc_head(&ch.mqc_head, sent_at, &msg);

        // Extend the message window by one message and get its index.
        proof {
            crate::indices::lemma_dist_zero(m0.free_msg, m0.first_msg);
            crate::indices::lemma_dist_zero(m0.first_msg, m0.free_msg);
        }
        let new_message_idx = message_window.extend(1);
        proof {
            assert(new_message_idx.message_idx.value == m0.free_msg);
        }

        // Record the head at the new message's index.
        let head_copy = clone_bytes(&new_head);
        ch.mqc_by_msg.insert(new_message_idx.message_idx.value, head_copy);
        ch.mqc_head = new_head;
        proof {
            assert(heads_model(ch.mqc_by_msg@) =~~= m0.mqc_by_msg.insert(
                m0.free_msg,
                crate::mqc::mqc_link(m0.mqc_head, sent_at, payload),
            ));
        }

        // Insert the message into the tail page, or into a fresh page if
        // the buffer is empty or the tail page is at capacity.
        let ghost pc = m0.page_count() as int;
        let inbound = InboundDownwardMessage { msg, sent_at };
        let ring_size = ring_buf.size();
        if ring_size == 0 {
            let page_idx = ring_buf.extend();
            let mut page: Vec<InboundDownwardMessage> = Vec::new();
            page.push(inbound);
            ch.pages.insert(page_idx.page_idx.value, page);
            proof {
                assert(page_store_model(ch.pages@) =~~= m0.pages.insert(
                    m0.tail_page,
                    seq![MessageModel { msg: payload, sent_at }],
                ));
            }
        } else {
            let page_idx = match ring_buf.last_used() {
                Some(p) => p,
                None => ring_buf.extend(),
            };
            let ghost last_key = wrap_offset(m0.head_page, pc - 1);
            proof {
                crate::indices::lemma_add_dist(m0.head_page, m0.tail_page);
                crate::indices::lemma_wrap_add_is_offset(m0.head_page, m0.page_count());
                crate::indices::lemma_offset_step(m0.head_page, pc - 1);
                assert(page_idx.page_idx.value == last_key);
                crate::indices::lemma_dist_after_offset(m0.head_page, pc - 1);
                assert(m0.pages.dom().contains(last_key));
                assert(ch.pages@.contains_key(last_key));
            }
            let cur_len = match ch.pages.get(&page_idx.page_idx.value) {
                Some(p) => p.len(),
                None => 0,
            };
            proof {
                assert(cur_len == m0.page_at(pc - 1).len());
            }
            if cur_len < self.page_capacity as usize {
                let mut page = match ch.pages.remove(&page_idx.page_idx.value) {
                    Some(p) => p,
                    None => Vec::new(),
                };
                page.push(inbound);
                ch.pages.insert(page_idx.page_idx.value, page);
                proof {
                    assert(page_store_model(ch.pages@) =~~= m0.pages.insert(
                        last_key,
                        m0.page_at(pc - 1).push(MessageModel { msg: payload, sent_at }),
                    ));
                }
            } else {
                let page_idx = ring_buf.extend();
                let mut page: Vec<InboundDownwardMessage> = Vec::new();
                page.push(inbound);
                ch.pages.insert(page_idx.page_idx.value, page);
                proof {
                    assert(page_store_model(ch.pages@) =~~= m0.pages.insert(
                        m0.tail_page,
                        seq![MessageModel { msg: payload, sent_at }],
                    ));
                }
            }
        }

        // The page read above, and the mutations of the chain heads and
        // the page.
        weight = weight.saturating_add(self.db_weight.reads_writes(1, 0));
        weight = weight.saturating_add(self.db_weight.reads_writes(3, 3));

        // Persist the updated queue state as the final step.
        ch.state = QueueState {
            ring_buffer_state: ring_buf.into_inner(),
            message_window_state: message_window.into_inner(),
        };
        proof {
            assert(enqueue_transition(m0, ch@, payload, sent_at, cap));
            crate::model::lemma_enqueue_preserves_wf(m0, ch@, payload, sent_at, cap);
        }
        self.channels.insert(para, ch);
        weight = weight.saturating_add(self.db_weight.reads_writes(1, 1));

        Ok(weight)
    }

    /// Checks whether a consumer's claimed processed message count is
    /// acceptable: a consumer with pending messages must process at least
    /// one per round, and can never process more than are pending.
    pub fn check_processed_downward_messages(&self, para: u64, processed_downward_messages: u32) -> (r:
        Result<(), ProcessedDownwardMessagesAcceptanceErr>)
        requires
            self.wf(),
        ensures
            self.channel(para).len() > 0 && processed_downward_messages == 0 ==> r == Result::<
                (),
                ProcessedDownwardMessagesAcceptanceErr,
            >::Err(ProcessedDownwardMessagesAcceptanceErr::AdvancementRule),
            processed_downward_messages > self.channel(para).len() ==> r == Result::<
                (),
                ProcessedDownwardMessagesAcceptanceErr,
            >::Err(
                ProcessedDownwardMessagesAcceptanceErr::Underflow {
                    processed_downward_messages,
                    dmq_length: self.channel(para).len() as u32,
                },
            ),
            (processed_downward_messages <= self.channel(para).len() && !(self.channel(para).len()
                > 0 && processed_downward_messages == 0)) ==> r is Ok,
    {
        let dmq_length = self.dmq_length(para);

        if dmq_length > 0 && processed_downward_messages == 0 {
            return Err(ProcessedDownwardMessagesAcceptanceErr::AdvancementRule);
        }
        if dmq_length < processed_downward_messages {
            return Err(
                ProcessedDownwardMessagesAcceptanceErr::Underflow {
                    processed_downward_messages,
                    dmq_length,
                },
            );
        }

        Ok(())
    }

    /// Removes every record kept for an outgoing channel: its pages, its
    /// global chain head, its per-message chain heads and its window
    /// state. Retirement leaves no residue, so a retired channel reads as
    /// one that never existed: its length is 0 and its chain head is the
    /// zero hash.
    pub fn clean_dmp_after_outgoing(&mut self, outgoing_para: u64)
        requires
            old(self).wf(),
        ensures
            final(self).wf(),
            final(self).page_capacity == old(self).page_capacity,
            final(self).db_weight == old(self).db_weight,
            final(self).channel(outgoing_para) == empty_channel_model(),
            forall|k: u64| k != outgoing_para ==> final(self).channel(k) == old(self).channel(k),
    {
        self.channels.remove(&outgoing_para);
    }

    /// Retires every channel noted for offboarding, removing all data
    /// associated with each.
    pub fn perform_outgoing_para_cleanup(&mut self, outgoing: &Vec<u64>)
        requires
            old(self).wf(),
        ensures
            final(self).wf(),
            final(self).page_capacity == old(self).page_capacity,
            final(self).db_weight == old(self).db_weight,
            forall|k: u64|
                outgoing@.contains(k) ==> final(self).channel(k) == empty_channel_model(),
            forall|k: u64| !outgoing@.contains(k) ==> final(self).channel(k) == old(self).channel(k),
    {
        let mut i: usize = 0;
        while i < outgoing.len()
            invariant
                0 <= i <= outgoing@.len(),
                self.wf(),
                self.page_capacity == old(self).page_capacity,
                self.db_weight == old(self).db_weight,
                forall|k: u64|
                    outgoing@.subrange(0, i as int).contains(k) ==> self.channel(k)
                        == empty_channel_model(),
                forall|k: u64|
                    !outgoing@.subrange(0, i as int).contains(k) ==> self.channel(k) == old(
                        self,
                    ).channel(k),
            decreases outgoing@.len() - i,
        {
            let para = outgoing[i];
            self.clean_dmp_after_outgoing(para);
            proof {
                assert(outgoing@.subrange(0, i as int) =~= outgoing@.subrange(
                    0,
                    i + 1 as int,
                ).drop_last());
                assert forall|k: u64| outgoing@.subrange(0, i + 1 as int).contains(k) implies self
                    .channel(k) == empty_channel_model() by {
                    if k != para {
                        let j = choose|j: int|
                            0 <= j < i + 1 && #[trigger] outgoing@.subrange(0, i + 1 as int)[j]
                                == k;
                        assert(outgoing@.subrange(0, i as int)[j] == k);
                    }
                }
                assert forall|k: u64| !outgoing@.subrange(0, i + 1 as int).contains(k) implies self
                    .channel(k) == old(self).channel(k) by {
                    assert(forall|j: int|
                        0 <= j < i ==> outgoing@.subrange(0, i as int)[j] == outgoing@.subrange(
                            0,
                            i + 1 as int,
                        )[j]);
                    assert(!outgoing@.subrange(0, i as int).contains(k));
                    assert(k != para) by {
                        assert(outgoing@.subrange(0, i + 1 as int)[i as int] == para);
                    }
                }
            }
            i = i + 1;
        }
        proof {
            assert(outgoing@.subrange(0, outgoing@.len() as int) =~= outgoing@);
        }
    }

    /// The cost of one prune that dropped `d` whole pages, split `s`
    /// pages (0 or 1) and removed `k` messages: the state read, the page
    /// reads and removals, the chain-head removals, and the state write.
    pub open spec fn prune_weight(dbw: RuntimeDbWeight, d: int, s: int, k: int) -> Weight {
        dbw.spec_reads_writes((2 + d + s) as u64, (2 + 2 * d + s + k) as u64)
    }

    /// Prunes the given number of messages from the head of a channel's
    /// queue.
    ///
    /// Every call site is expected to gate the count through
    /// [`Self::check_processed_downward_messages`]; the count is not
    /// re-validated here. Pruning an empty queue changes nothing, and
    /// pruning more messages than are queued empties the queue: both the
    /// window and the ring buffer end empty, without error. A call with a
    /// count of zero on a non-empty queue cannot be reached through the
    /// acceptance check and is deliberately kept a defensive no-op.
    ///
    /// Pages are walked from the head: a page whose messages are all
    /// consumed is dropped whole; a page consumed only in part keeps its
    /// unconsumed suffix, and the walk stops there. The chain heads of
    /// exactly the pruned message indices are deleted; the global chain
    /// head is never touched by pruning.
    #[verifier::rlimit(80)]
    pub fn prune_dmq(&mut self, para: u64, processed_downward_messages: u32) -> (w: Weight)
        requires
            old(self).wf(),
        ensures
            final(self).wf(),
            final(self).page_capacity == old(self).page_capacity,
            final(self).db_weight == old(self).db_weight,
            forall|key: u64| key != para ==> final(self).channel(key) == old(self).channel(key),
            old(self).channel(para).len() == 0 || processed_downward_messages == 0 ==> {
                &&& *final(self) == *old(self)
                &&& w == old(self).db_weight.spec_reads_writes(1, 0)
            },
            old(self).channel(para).len() > 0 && processed_downward_messages > 0 ==> {
                let m = old(self).channel(para);
                let m2 = final(self).channel(para);
                let k = vstd::math::min(processed_downward_messages as int, m.len() as int);
                let d = wrap_dist(m.head_page, m2.head_page) as int;
                let s: int = if crate::model::prefix_len(m, d) == k {
                    0
                } else {
                    1
                };
                &&& crate::model::prune_transition(m, m2, k)
                &&& m2.len() == m.len() - k
                &&& w == Self::prune_weight(old(self).db_weight, d, s, k)
            },
    {
        let ghost m0 = self.channel(para);
        let ghost cap = self.page_capacity;
        proof {
            self.lemma_channel_wf(para);
        }

        let queue_length = self.dmq_length(para);
        let total_weight = self.db_weight.reads_writes(1, 0);

        // Bail out early if the queue is empty.
        if queue_length == 0 {
            return total_weight;
        }

        // Unreachable when the acceptance check gates every call, since a
        // consumer with pending messages must process at least one.
        if processed_downward_messages == 0 {
            return total_weight;
        }

        // The count of messages to remove, saturated at the queue length.
        let k: u64 = if (processed_downward_messages as u64) < (queue_length as u64) {
            processed_downward_messages as u64
        } else {
            queue_length as u64
        };

        let mut ch = match self.channels.remove(&para) {
            Some(c) => c,
            None => ChannelQueue::empty(),
        };
        proof {
            assert(ch@ == m0);
        }
        let ChannelQueue { state, pages, mqc_head, mqc_by_msg, prior_head: _ } = ch;
        let mut pages = pages;
        let mut mqc_by_msg = mqc_by_msg;

        let mut ring_buf = RingBuffer::with_state(state.ring_buffer_state, para);
        let mut message_window = MessageWindow::with_state(state.message_window_state, para);

        let first_mqc_key_to_remove = match message_window.first() {
            Some(p) => p,
            None => message_window.first_free(),
        };

        let mut messages_to_prune: u64 = k;
        let mut pages_removed: u64 = 0;
        let mut have_split: bool = false;

        while messages_to_prune > 0
            invariant
                channel_wf(m0, cap),
                k <= m0.len(),
                0 <= messages_to_prune <= k,
                ring_buf.tail() == m0.tail_page,
                ring_buf.head() == wrap_offset(m0.head_page, pages_removed as int),
                pages_removed <= m0.page_count(),
                ring_buf.spec_size() == m0.page_count() - pages_removed,
                message_window.para_id == para,
                message_window.free_idx() == m0.free_msg,
                message_window.first_idx() == wrap_offset(m0.first_msg, (k
                    - messages_to_prune) as int),
                message_window.spec_size() == m0.len() - (k - messages_to_prune),
                page_store_model(pages@).dom() == Set::new(
                    |key: u64| wrap_dist(ring_buf.head(), key) < ring_buf.spec_size(),
                ),
                !have_split ==> crate::model::prefix_len(m0, pages_removed as int) == k
                    - messages_to_prune,
                !have_split ==> forall|i: int|
                    0 <= i < ring_buf.spec_size() ==> page_store_model(pages@)[#[trigger] wrap_offset(
                        ring_buf.head(),
                        i,
                    )] == m0.page_at(pages_removed + i),
                have_split ==> {
                    &&& messages_to_prune == 0
                    &&& pages_removed < m0.page_count()
                    &&& crate::model::prefix_len(m0, pages_removed as int) < k < crate::model::prefix_len(
                        m0,
                        pages_removed as int,
                    ) + m0.page_at(pages_removed as int).len()
                    &&& page_store_model(pages@)[ring_buf.head()] == m0.page_at(
                        pages_removed as int,
                    ).skip(k - crate::model::prefix_len(m0, pages_removed as int))
                    &&& forall|i: int|
                        1 <= i < ring_buf.spec_size() ==> page_store_model(
                            pages@,
                        )[#[trigger] wrap_offset(ring_buf.head(), i)] == m0.page_at(
                            pages_removed + i,
                        )
                },
                crate::model::pages_concat(
                    page_store_model(pages@),
                    ring_buf.head(),
                    ring_buf.spec_size() as int,
                ) == m0.msgs().skip((k - messages_to_prune) as int),
            decreases messages_to_prune,
        {
            let ghost head_old = ring_buf.head();
            let ghost size_old = ring_buf.spec_size() as int;
            let ghost pm_old = page_store_model(pages@);
            let ghost mtp_old = messages_to_prune as int;
            let ghost d_old = pages_removed as int;
            let ghost pruned_old = k - messages_to_prune;

            proof {
                // A page must remain: there are still messages to remove.
                assert(m0.msgs().skip(pruned_old as int).len() == m0.len() - pruned_old);
                assert(ring_buf.spec_size() > 0);
            }

            let first_used_page = match ring_buf.front() {
                Some(p) => p,
                None => ring_buf.first_unused(),
            };
            proof {
                assert(first_used_page.page_idx.value == head_old);
                assert(wrap_dist(head_old, head_old) == 0);
                assert(pm_old.dom().contains(head_old));
                assert(pages@.contains_key(head_old));
                assert(wrap_offset(head_old, 0) == head_old);
                assert(pm_old[head_old] == m0.page_at(d_old));
                assert(1 <= m0.page_at(d_old).len() <= cap);
            }
            let mut page = match pages.remove(&first_used_page.page_idx.value) {
                Some(p) => p,
                None => Vec::new(),
            };
            proof {
                assert(page@.map_values(|m: InboundDownwardMessage| m@) == m0.page_at(d_old));
            }
            let messages_in_page = page.len() as u64;

            if messages_to_prune >= messages_in_page {
                // The whole page is consumed: drop it.
                messages_to_prune = messages_to_prune - messages_in_page;
                message_window.prune(messages_in_page);
                ring_buf.pop_front();
                pages_removed = pages_removed + 1;

                proof {
                    let head_new = ring_buf.head();
                    let size_new = ring_buf.spec_size() as int;
                    let pm_new = page_store_model(pages@);
                    assert(head_new == wrap_add(head_old, 1));
                    crate::indices::lemma_offset_step(m0.head_page, d_old);

                    // The window advanced in lockstep with the page.
                    crate::indices::lemma_offset_offset(
                        m0.first_msg,
                        pruned_old as int,
                        messages_in_page as int,
                    );

                    // One more full page of messages is accounted for.
                    crate::model::lemma_pages_concat_snoc(m0.pages, m0.head_page, d_old + 1);
                    assert(crate::model::prefix_len(m0, d_old + 1) == crate::model::prefix_len(
                        m0,
                        d_old,
                    ) + m0.page_at(d_old).len());

                    // The remaining pages cover exactly the shrunk range.
                    assert(pm_new.dom() =~= Set::new(
                        |key: u64| wrap_dist(head_new, key) < size_new,
                    )) by {
                        assert forall|key: u64|
                            pm_new.dom().contains(key) == (wrap_dist(head_new, key)
                                < size_new) by {
                            crate::indices::lemma_dist_shift(head_old, key, 1);
                            crate::indices::lemma_dist_zero(head_old, key);
                            assert(pm_old.dom().contains(key) == (wrap_dist(head_old, key)
                                < size_old));
                        }
                    }

                    // Every remaining page is what it was, one position
                    // closer to the head.
                    assert forall|i: int| 0 <= i < size_new implies pm_new[#[trigger] wrap_offset(
                        head_new,
                        i,
                    )] == m0.page_at(pages_removed + i) by {
                        crate::indices::lemma_offset_offset(head_old, 1, i);
                        crate::indices::lemma_offset_injective(head_old, 0, i + 1);
                        assert(wrap_offset(head_old, 0) == head_old);
                        assert(pm_new[wrap_offset(head_old, i + 1)] == pm_old[wrap_offset(
                            head_old,
                            i + 1,
                        )]);
                        crate::indices::lemma_offset_offset(m0.head_page, d_old, i + 1);
                    }

                    // The concatenation lost exactly the dropped page's
                    // messages from its front.
                    crate::model::lemma_pages_concat_skip_first(pm_old, head_old, size_old);
                    assert forall|i: int|
                        0 <= i < size_new implies pm_new[#[trigger] wrap_offset(head_new, i)]
                        == pm_old[wrap_offset(head_new, i)] by {
                        crate::indices::lemma_offset_offset(head_old, 1, i);
                        crate::indices::lemma_offset_injective(head_old, 0, i + 1);
                        assert(wrap_offset(head_old, 0) == head_old);
                    }
                    crate::model::lemma_pages_concat_congruent(pm_new, pm_old, head_new, size_new);
                    assert(crate::model::pages_concat(pm_new, head_new, size_new)
                        =~= m0.msgs().skip((k - messages_to_prune) as int)) by {
                        assert(crate::model::pages_concat(pm_old, head_old, size_old)
                            == m0.msgs().skip(pruned_old as int));
                        assert(crate::model::pages_concat(pm_old, head_old, size_old).skip(
                            m0.page_at(d_old).len() as int,
                        ) =~= crate::model::pages_concat(pm_old, head_new, size_new));
                        assert(m0.msgs().skip(pruned_old as int).skip(
                            m0.page_at(d_old).len() as int,
                        ) =~= m0.msgs().skip((k - messages_to_prune) as int));
                    }
                }
            } else {
                // The page is consumed only in part: discard the consumed
                // prefix, persist the remainder, and stop.
                message_window.prune(messages_to_prune);
                let ghost consumed = messages_to_prune as int;
                let rest = page.split_off(messages_to_prune as usize);
                pages.insert(first_used_page.page_idx.value, rest);
                have_split = true;
                messages_to_prune = 0;

                proof {
                    let pm_new = page_store_model(pages@);
                    let front_model = m0.page_at(d_old);

                    assert(rest@.map_values(|m: InboundDownwardMessage| m@) =~= front_model.skip(
                        consumed,
                    ));

                    // The split did not change which pages exist.
                    assert(pm_new.dom() =~= Set::new(
                        |key: u64| wrap_dist(head_old, key) < size_old,
                    ));

                    // Only the front page changed.
                    assert(pm_new[head_old] == front_model.skip(consumed));
                    assert forall|i: int| 1 <= i < size_old implies pm_new[#[trigger] wrap_offset(
                        head_old,
                        i,
                    )] == m0.page_at(d_old + i) by {
                        crate::indices::lemma_offset_injective(head_old, 0, i);
                        assert(wrap_offset(head_old, 0) == head_old);
                    }

                    // The window advanced by the consumed prefix.
                    crate::indices::lemma_offset_offset(m0.first_msg, pruned_old as int, consumed);

                    // The concatenation lost exactly the consumed prefix.
                    assert forall|i: int|
                        0 <= i < size_old - 1 implies pm_new[#[trigger] wrap_offset(
                        wrap_add(head_old, 1),
                        i,
                    )] == pm_old[wrap_offset(wrap_add(head_old, 1), i)] by {
                        crate::indices::lemma_offset_offset(head_old, 1, i);
                        crate::indices::lemma_offset_injective(head_old, 0, i + 1);
                        assert(wrap_offset(head_old, 0) == head_old);
                    }
                    crate::model::lemma_pages_concat_congruent(
                        pm_new,
                        pm_old,
                        wrap_add(head_old, 1),
                        size_old - 1,
                    );
                    assert(crate::model::pages_concat(pm_new, head_old, size_old)
                        =~= m0.msgs().skip(k as int)) by {
                        let rest_concat = crate::model::pages_concat(
                            pm_new,
                            wrap_add(head_old, 1),
                            size_old - 1,
                        );
                        assert(rest_concat == crate::model::pages_concat(
                            pm_old,
                            wrap_add(head_old, 1),
                            size_old - 1,
                        ));
                        assert(crate::model::pages_concat(pm_new, head_old, size_old)
                            == pm_new[head_old] + rest_concat);
                        assert(crate::model::pages_concat(pm_old, head_old, size_old)
                            == pm_old[head_old] + rest_concat);
                        assert(crate::model::pages_concat(pm_old, head_old, size_old)
                            == m0.msgs().skip(pruned_old as int));
                        assert(front_model.skip(consumed) + rest_concat =~= (front_model
                            + rest_concat).skip(consumed));
                        assert(m0.msgs().skip(pruned_old as int).skip(consumed) =~= m0.msgs().skip(
                            k as int,
                        ));
                    }
                }
            }
        }

        // Delete the chain head of every pruned message index.
        let mut message_idx = first_mqc_key_to_remove.message_idx;
        let mut removed_heads: u64 = 0;
        while removed_heads < k
            invariant
                k <= 0xffff_ffff,
                0 <= removed_heads <= k,
                message_idx.value == wrap_offset(m0.first_msg, removed_heads as int),
                heads_model(mqc_by_msg@) == m0.mqc_by_msg.remove_keys(
                    Set::new(|key: u64| wrap_dist(m0.first_msg, key) < removed_heads),
                ),
            decreases k - removed_heads,
        {
            let ghost j = removed_heads as int;
            let ghost key_j = message_idx.value;
            let ghost heads_before = mqc_by_msg@;
            mqc_by_msg.remove(&message_idx.value);
            message_idx = message_idx.wrapping_inc();
            removed_heads = removed_heads + 1;
            proof {
                crate::indices::lemma_offset_step(m0.first_msg, j);
                assert(mqc_by_msg@ == heads_before.remove(key_j));
                assert(heads_model(mqc_by_msg@) =~= m0.mqc_by_msg.remove_keys(
                    Set::new(|key: u64| wrap_dist(m0.first_msg, key) < removed_heads),
                )) by {
                    assert forall|key: u64|
                        heads_model(heads_before.remove(key_j)).dom().contains(key)
                            == (m0.mqc_by_msg.dom().contains(key) && !(wrap_dist(m0.first_msg, key)
                            < j + 1)) by {
                        crate::indices::lemma_add_dist(m0.first_msg, key);
                        crate::indices::lemma_wrap_add_is_offset(
                            m0.first_msg,
                            wrap_dist(m0.first_msg, key),
                        );
                        crate::indices::lemma_dist_after_offset(m0.first_msg, j);
                        assert(Set::new(
                            |key2: u64| wrap_dist(m0.first_msg, key2) < j,
                        ).contains(key) == (wrap_dist(m0.first_msg, key) < j));
                        assert(heads_model(heads_before).dom().contains(key)
                            == (m0.mqc_by_msg.dom().contains(key) && !(wrap_dist(
                            m0.first_msg,
                            key,
                        ) < j)));
                        assert(heads_before.contains_key(key) == heads_model(
                            heads_before,
                        ).dom().contains(key));
                        assert(heads_model(heads_before.remove(key_j)).dom().contains(key)
                            == (heads_before.contains_key(key) && key != key_j));
                    }
                    assert forall|key: u64|
                        heads_model(heads_before.remove(key_j)).dom().contains(
                            key,
                        ) implies heads_model(heads_before.remove(key_j))[key]
                        == m0.mqc_by_msg.remove_keys(
                        Set::new(|key2: u64| wrap_dist(m0.first_msg, key2) < removed_heads),
                    )[key] by {
                        crate::indices::lemma_add_dist(m0.first_msg, key);
                        crate::indices::lemma_wrap_add_is_offset(
                            m0.first_msg,
                            wrap_dist(m0.first_msg, key),
                        );
                        crate::indices::lemma_dist_after_offset(m0.first_msg, j);
                        assert(heads_model(heads_before.remove(key_j)).dom().contains(key)
                            == (heads_before.contains_key(key) && key != key_j));
                        assert(key != key_j && heads_before.contains_key(key));
                        assert(wrap_dist(m0.first_msg, key) != j);
                        assert(Set::new(
                            |key2: u64| wrap_dist(m0.first_msg, key2) < j,
                        ).contains(key) == (wrap_dist(m0.first_msg, key) < j));
                        assert(Set::new(
                            |key2: u64| wrap_dist(m0.first_msg, key2) < j + 1,
                        ).contains(key) == (wrap_dist(m0.first_msg, key) < j + 1));
                        assert(heads_model(heads_before).dom().contains(key));
                        assert(m0.mqc_by_msg.dom().contains(key) && !(wrap_dist(
                            m0.first_msg,
                            key,
                        ) < j));
                        assert(heads_model(heads_before)[key] == m0.mqc_by_msg.remove_keys(
                            Set::new(|key2: u64| wrap_dist(m0.first_msg, key2) < j),
                        )[key]);
                        assert(m0.mqc_by_msg.remove_keys(
                            Set::new(|key2: u64| wrap_dist(m0.first_msg, key2) < j),
                        )[key] == m0.mqc_by_msg[key]);
                        assert(m0.mqc_by_msg.remove_keys(
                            Set::new(|key2: u64| wrap_dist(m0.first_msg, key2) < removed_heads),
                        )[key] == m0.mqc_by_msg[key]);
                        assert(heads_model(heads_before.remove(key_j))[key] == heads_before.remove(
                            key_j,
                        )[key]@);
                        assert(heads_before.remove(key_j)[key] == heads_before[key]);
                        assert(heads_model(heads_before)[key] == heads_before[key]@);
                    }
                }
            }
        }

        // Persist the updated queue state as the final step.
        let ghost new_prior = crate::model::chain_from(m0.prior_head, m0.msgs(), k as int);
        let ch = ChannelQueue {
            state: QueueState {
                ring_buffer_state: ring_buf.into_inner(),
                message_window_state: message_window.into_inner(),
            },
            pages,
            mqc_head,
            mqc_by_msg,
            prior_head: Ghost(new_prior),
        };
        proof {
            let m2 = ch@;
            crate::indices::lemma_dist_after_offset(m0.head_page, pages_removed as int);
            if !have_split {
                if m2.page_count() > 0 {
                    assert(wrap_offset(m2.head_page, 0) == m2.head_page);
                    assert(m2.page_at(0) == m0.page_at(pages_removed as int));
                    assert(m0.page_at(pages_removed as int).skip(0) =~= m0.page_at(
                        pages_removed as int,
                    ));
                }
                assert forall|i: int| 1 <= i < m2.page_count() implies m2.page_at(i)
                    == m0.page_at(pages_removed + i) by {}
            }
            assert(crate::model::prune_transition(m0, m2, k as int));
            crate::model::lemma_prune_preserves_wf(m0, m2, k as int, cap);
        }
        self.channels.insert(para, ch);

        // The state read, the page reads and removals, the chain-head
        // removals, and the state write.
        let split_count: u64 = if have_split {
            1
        } else {
            0
        };
        let reads: u64 = 2 + pages_removed + split_count;
        let writes: u64 = 2 + 2 * pages_removed + split_count + k;
        self.db_weight.reads_writes(reads, writes)
    }

    /// The messages a bounded read returns: the concatenation of up to
    /// `bounds.page_count` pages, starting `bounds.start_page_index`
    /// pages after the head of the queue.
    pub open spec fn read_bounded_spec(m: ChannelModel, bounds: DmqContentsBounds) -> Seq<
        MessageModel,
    > {
        let start = vstd::math::min(bounds.start_page_index as int, m.page_count() as int);
        let cnt = vstd::math::min(bounds.page_count as int, m.page_count() - start);
        crate::model::pages_concat(m.pages, wrap_offset(m.head_page, start), cnt)
    }

    /// Gets a subset of the inbound messages of a channel's queue: the
    /// messages of up to `bounds.page_count` pages, starting from the
    /// 0-based page position `bounds.start_page_index`, where 0 names the
    /// first used page.
    ///
    /// The read walks a disposable copy of the ring buffer state and
    /// never mutates the queue. The result is empty if the channel is
    /// unknown, its queue is empty, `bounds.page_count` is 0, or
    /// `bounds.start_page_index` lies past the last used page; if none of
    /// these hold, at least one message is returned.
    pub fn dmq_contents_bounded(&self, recipient: u64, bounds: DmqContentsBounds) -> (r: Vec<
        InboundDownwardMessage,
    >)
        requires
            self.wf(),
        ensures
            r@.map_values(|x: InboundDownwardMessage| x@) == Self::read_bounded_spec(
                self.channel(recipient),
                bounds,
            ),
            self.channel(recipient).len() > 0 && bounds.page_count > 0 && bounds.start_page_index
                < self.channel(recipient).page_count() ==> r@.len() >= 1,
    {
        proof {
            self.lemma_channel_wf(recipient);
        }
        let ghost m = self.channel(recipient);
        let ghost expected = Self::read_bounded_spec(m, bounds);

        let ch = match self.channels.get(&recipient) {
            Some(ch) => ch,
            None => {
                return Vec::new();
            },
        };

        let mut ring_buf = RingBuffer::with_state(ch.state.ring_buffer_state, recipient);

        // Skip the first `bounds.start_page_index` pages on the copy.
        ring_buf.prune(bounds.start_page_index);
        let ghost start_head = ring_buf.head();

        let remaining = ring_buf.size();
        let to_fetch: u64 = if (bounds.page_count as u64) < remaining {
            bounds.page_count as u64
        } else {
            remaining
        };

        let mut result: Vec<InboundDownwardMessage> = Vec::new();
        let mut iter = ring_buf.into_iter();
        let mut fetched: u64 = 0;
        proof {
            assert(expected == crate::model::pages_concat(m.pages, start_head, to_fetch as int));
        }
        while fetched < to_fetch
            invariant
                self.wf(),
                0 <= fetched <= to_fetch,
                self.channels@.contains_key(recipient),
                self.channels@[recipient] == *ch,
                m == self.channel(recipient),
                channel_wf(m, self.page_capacity),
                to_fetch <= m.page_count(),
                wrap_dist(m.head_page, start_head) == m.page_count() - wrap_dist(
                    start_head,
                    m.tail_page,
                ),
                wrap_dist(start_head, m.tail_page) >= to_fetch,
                iter.buffer.para_id == recipient,
                iter.buffer.tail() == m.tail_page,
                iter.buffer.head() == wrap_offset(start_head, fetched as int),
                iter.buffer.spec_size() == wrap_dist(start_head, m.tail_page) - fetched,
                result@.map_values(|x: InboundDownwardMessage| x@) =~= crate::model::pages_concat(
                    m.pages,
                    start_head,
                    fetched as int,
                ),
            decreases to_fetch - fetched,
        {
            let page_idx = match iter.next() {
                Some(p) => p,
                None => {
                    return result;
                },
            };
            proof {
                // The page at this position lies in the occupied range.
                crate::indices::lemma_dist_after_offset(start_head, fetched as int);
                crate::indices::lemma_add_dist(m.head_page, start_head);
                crate::indices::lemma_wrap_add_is_offset(
                    m.head_page,
                    wrap_dist(m.head_page, start_head),
                );
                crate::indices::lemma_offset_offset(
                    m.head_page,
                    wrap_dist(m.head_page, start_head) as int,
                    fetched as int,
                );
                assert(page_idx.page_idx.value == wrap_offset(
                    m.head_page,
                    wrap_dist(m.head_page, start_head) + fetched,
                ));
                crate::indices::lemma_dist_after_offset(
                    m.head_page,
                    wrap_dist(m.head_page, start_head) + fetched,
                );
                assert(m.pages.dom().contains(page_idx.page_idx.value));
                assert(ch.pages@.contains_key(page_idx.page_idx.value));
            }
            let page = match ch.pages.get(&page_idx.page_idx.value) {
                Some(p) => p,
                None => {
                    return result;
                },
            };
            let ghost result_before = result@;
            let mut j: usize = 0;
            while j < page.len()
                invariant
                    0 <= j <= page@.len(),
                    result@.len() == result_before.len() + j,
                    result@.subrange(0, result_before.len() as int) =~= result_before,
                    forall|i: int|
                        0 <= i < j ==> result@[result_before.len() + i]@ == page@[i]@,
                decreases page@.len() - j,
            {
                result.push(page[j].clone());
                j = j + 1;
            }
            proof {
                crate::model::lemma_pages_concat_snoc(m.pages, start_head, fetched + 1 as int);
                assert(m.pages[wrap_offset(start_head, fetched as int)] == page@.map_values(
                    |mm: InboundDownwardMessage| mm@,
                ));
                assert(result@.map_values(|x: InboundDownwardMessage| x@)
                    =~= crate::model::pages_concat(m.pages, start_head, fetched + 1 as int));
            }
            fetched = fetched + 1;
        }

        proof {
            assert(result@.map_values(|x: InboundDownwardMessage| x@) =~= expected);
            if m.len() > 0 && bounds.page_count > 0 && bounds.start_page_index < m.page_count() {
                assert(to_fetch >= 1);
                let start = wrap_dist(m.head_page, start_head) as int;
                crate::indices::lemma_add_dist(m.head_page, start_head);
                crate::indices::lemma_wrap_add_is_offset(
                    m.head_page,
                    wrap_dist(m.head_page, start_head),
                );
                assert(m.page_at(start) == m.pages[start_head]);
                assert(1 <= m.page_at(start).len());
                assert(expected.len() >= m.pages[start_head].len());
            }
        }
        result
    }

    /// Returns all the messages of a channel's queue, in order.
    pub fn dmq_contents(&self, recipient: u64) -> (r: Vec<InboundDownwardMessage>)
        requires
            self.wf(),
        ensures
            r@.map_values(|x: InboundDownwardMessage| x@) == self.channel(recipient).msgs(),
    {
        proof {
            self.lemma_channel_wf(recipient);
        }
        let state = self.dmp_queue_state(recipient);
        let page_count = RingBuffer::with_state(state.ring_buffer_state, recipient).size() as u32;
        let r = self.dmq_contents_bounded(
            recipient,
            DmqContentsBounds { start_page_index: 0, page_count },
        );
        proof {
            let m = self.channel(recipient);
            assert(wrap_offset(m.head_page, 0) == m.head_page);
            assert(Self::read_bounded_spec(
                m,
                DmqContentsBounds { start_page_index: 0, page_count },
            ) == m.msgs());
        }
        r
    }

    /// Returns the head of the message queue chain for the given channel:
    /// the zero hash if the channel has never carried a message.
    pub fn dmq_mqc_head(&self, para: u64) -> (r: Vec<u8>)
        ensures
            r@ == self.channel(para).mqc_head,
    {
        match self.channels.get(&para) {
            Some(ch) => clone_bytes(&ch.mqc_head),
            None => zero_hash(),
        }
    }

    /// Returns the chain head recorded for the given message index: the
    /// zero hash if that index does not lie in the channel's live window.
    pub fn dmq_mqc_head_for_message(
        &self,
        para_id: u64,
        message_idx: WrappingIndex<MessageIndex>,
    ) -> (r: Vec<u8>)
        requires
            self.wf(),
        ensures
            wrap_dist(self.channel(para_id).first_msg, message_idx.value) < self.channel(
                para_id,
            ).len() ==> r@ == self.channel(para_id).mqc_by_msg[message_idx.value],
            wrap_dist(self.channel(para_id).first_msg, message_idx.value) >= self.channel(
                para_id,
            ).len() ==> r@ == zero_hash_seq(),
    {
        proof {
            self.lemma_channel_wf(para_id);
        }
        let ghost m = self.channel(para_id);
        match self.channels.get(&para_id) {
            Some(ch) => {
                proof {
                    assert(self.channels@.contains_key(para_id));
                    assert(m == ch@);
                }
                match ch.mqc_by_msg.get(&message_idx.value) {
                    Some(h) => {
                        proof {
                            assert(ch.mqc_by_msg@.contains_key(message_idx.value));
                            assert(m.mqc_by_msg.dom().contains(message_idx.value));
                            assert(m.mqc_by_msg.dom() == Set::new(
                                |k: u64| wrap_dist(m.first_msg, k) < m.len(),
                            ));
                            assert(Set::new(|k: u64| wrap_dist(m.first_msg, k) < m.len()).contains(
                                message_idx.value,
                            ));
                            assert(m.mqc_by_msg[message_idx.value] == h@);
                        }
                        clone_bytes(h)
                    },
                    None => {
                        proof {
                            assert(!ch.mqc_by_msg@.contains_key(message_idx.value));
                            assert(!m.mqc_by_msg.dom().contains(message_idx.value));
                            assert(!Set::new(
                                |k: u64| wrap_dist(m.first_msg, k) < m.len(),
                            ).contains(message_idx.value));
                        }
                        zero_hash()
                    },
                }
            },
            None => zero_hash(),
        }
    }

    /// Checks the storage invariants of one channel; every storage update
    /// is expected to preserve them, so the check always passes — which
    /// is proved, not observed. It re-derives from the stored records
    /// alone:
    ///
    /// - the number of messages across the channel's pages equals the
    ///   message window size;
    /// - replaying the hash chain over the live messages links every
    ///   stored per-message chain head to its predecessor, and the global
    ///   head equals the head stored for the newest message;
    /// - no per-message chain head and no page exists outside the live
    ///   window and the occupied page range (a sample of 4096 keys on
    ///   each side is probed).
    pub fn assert_storage_consistency_exhaustive(&self, para: u64) -> (r: bool)
        requires
            self.wf(),
        ensures
            r,
    {
        proof {
            self.lemma_channel_wf(para);
        }
        let ghost m = self.channel(para);

        let ch = match self.channels.get(&para) {
            Some(ch) => ch,
            None => {
                return true;
            },
        };

        let state = ch.state;
        let window = MessageWindow::with_state(state.message_window_state, para);
        let ring_buf = RingBuffer::with_state(state.ring_buffer_state, para);

        // Fetch all messages of this channel.
        let messages_in_pages = self.dmq_contents(para);

        // Ensure the 1:1 mapping of messages to message indices defined
        // by the message window.
        if messages_in_pages.len() as u64 != window.size() {
            return false;
        }

        // Ensure the chain heads are properly linked: each stored head
        // extends the head stored for the message before it, and the
        // global head is the newest stored head.
        let len = window.size();
        let first_idx = window.first_free().message_idx.wrapping_sub(WrappingIndex::new(len));
        proof {
            crate::indices::lemma_add_dist(m.first_msg, m.free_msg);
            assert(first_idx.value == m.first_msg);
        }
        let mut i: u64 = 1;
        while i < len
            invariant
                self.wf(),
                m == self.channel(para),
                channel_wf(m, self.page_capacity),
                1 <= i <= vstd::math::max(m.len() as int, 1),
                len == m.len(),
                first_idx.value == m.first_msg,
                messages_in_pages@.map_values(|x: InboundDownwardMessage| x@) == m.msgs(),
            decreases len - i,
        {
            proof {
                crate::indices::lemma_dist_after_offset(m.first_msg, i - 1);
                crate::indices::lemma_dist_after_offset(m.first_msg, i as int);
            }
            let prev_idx = first_idx.wrapping_add(WrappingIndex::new(i - 1));
            let cur_idx = first_idx.wrapping_add(WrappingIndex::new(i));
            proof {
                crate::indices::lemma_wrap_add_is_offset(m.first_msg, (i - 1) as u64);
                crate::indices::lemma_wrap_add_is_offset(m.first_msg, i);
            }
            let prev = self.dmq_mqc_head_for_message(para, prev_idx);
            let cur = self.dmq_mqc_head_for_message(para, cur_idx);
            let message = &messages_in_pages[i as usize];
            let expected = crate::mqc::next_mqc_head(&prev, message.sent_at, &message.msg);
            proof {
                assert(message@ == m.msgs()[i as int]);
                assert(prev@ == m.chain_at(i as int));
                assert(cur@ == m.chain_at(i + 1));
            }
            if !crate::mqc::bytes_eq(&cur, &expected) {
                return false;
            }
            i = i + 1;
        }

        if len > 0 {
            proof {
                crate::indices::lemma_dist_after_offset(m.first_msg, m.len() - 1);
                crate::indices::lemma_wrap_add_is_offset(m.first_msg, (m.len() - 1) as u64);
            }
            let newest_idx = first_idx.wrapping_add(WrappingIndex::new(len - 1));
            let newest = self.dmq_mqc_head_for_message(para, newest_idx);
            let head = self.dmq_mqc_head(para);
            if !crate::mqc::bytes_eq(&head, &newest) {
                return false;
            }
        }

        // Ensure pruning keeps things tidy: chain heads and pages are
        // freed. Probing the entire index space would take ages; instead
        // a sample of keys on each side of the live ranges is checked.
        let first_unused_msg = window.first_free().message_idx;
        let first_unused_page = ring_buf.first_unused().page_idx;
        let head_page = first_unused_page.wrapping_sub(WrappingIndex::new(ring_buf.size()));
        proof {
            crate::indices::lemma_add_dist(m.head_page, m.tail_page);
            assert(head_page.value == m.head_page);
        }
        let mut j: u64 = 0;
        while j < 4096
            invariant
                self.wf(),
                m == self.channel(para),
                channel_wf(m, self.page_capacity),
                self.channels@.contains_key(para),
                self.channels@[para] == *ch,
                0 <= j <= 4096,
                first_unused_msg.value == m.free_msg,
                first_idx.value == m.first_msg,
                first_unused_page.value == m.tail_page,
                head_page.value == m.head_page,
            decreases 4096 - j,
        {
            let below_window = first_idx.wrapping_sub(WrappingIndex::new(j + 1));
            let above_window = first_unused_msg.wrapping_add(WrappingIndex::new(j));
            let below_ring = head_page.wrapping_sub(WrappingIndex::new(j + 1));
            let above_ring = first_unused_page.wrapping_add(WrappingIndex::new(j));
            proof {
                crate::indices::lemma_dist_after_offset(m.first_msg, m.len() + j);
                crate::indices::lemma_dist_after_offset(m.head_page, m.page_count() + j);
                crate::indices::lemma_add_dist(m.first_msg, m.free_msg);
                crate::indices::lemma_add_dist(m.head_page, m.tail_page);
                crate::indices::lemma_wrap_add_is_offset(m.first_msg, m.len());
                crate::indices::lemma_wrap_add_is_offset(m.head_page, m.page_count());
                crate::indices::lemma_offset_offset(m.first_msg, m.len() as int, j as int);
                crate::indices::lemma_offset_offset(m.head_page, m.page_count() as int, j as int);
                assert(wrap_dist(m.first_msg, below_window.value) == 0x1_0000_0000_0000_0000 - (j
                    + 1));
                assert(wrap_dist(m.head_page, below_ring.value) == 0x1_0000_0000_0000_0000 - (j
                    + 1));
                assert(!m.mqc_by_msg.dom().contains(below_window.value));
                assert(!m.mqc_by_msg.dom().contains(above_window.value));
                assert(!m.pages.dom().contains(below_ring.value));
                assert(!m.pages.dom().contains(above_ring.value));
            }
            if ch.mqc_by_msg.contains_key(&below_window.value) {
                return false;
            }
            if ch.mqc_by_msg.contains_key(&above_window.value) {
                return false;
            }
            if ch.pages.contains_key(&below_ring.value) {
                return false;
            }
            if ch.pages.contains_key(&above_ring.value) {
                return false;
            }
            j = j + 1;
        }

        true
    }

    /// Returns `count` chain-head mapping keys for the messages starting
    /// at index `start` of the given channel. The caller must ensure the
    /// returned indices are valid in the context of the message window.
    pub fn mqc_head_key_range(
        para: u64,
        start: WrappingIndex<MessageIndex>,
        count: u64,
    ) -> (r: Vec<ParaMessageIndex>)
        requires
            count <= usize::MAX,
        ensures
            r@.len() == count,
            forall|j: int|
                0 <= j < count ==> (#[trigger] r@[j]).para_id == para && r@[j].message_idx.value
                    == wrap_offset(start.value, j),
    {
        let mut keys: Vec<ParaMessageIndex> = Vec::new();
        let mut idx = start;
        let mut j: u64 = 0;
        while j < count
            invariant
                0 <= j <= count,
                count <= usize::MAX,
                idx.value == wrap_offset(start.value, j as int),
                keys@.len() == j,
                forall|i: int|
                    0 <= i < j ==> (#[trigger] keys@[i]).para_id == para
                        && keys@[i].message_idx.value == wrap_offset(start.value, i),
            decreases count - j,
        {
            keys.push(ParaMessageIndex { para_id: para, message_idx: idx });
            idx = idx.wrapping_inc();
            proof {
                crate::indices::lemma_offset_step(start.value, j as int);
            }
            j = j + 1;
        }

        keys
    }

    /// Returns `count` page keys for the pages starting at page position
    /// `start` of the given channel.
    pub fn page_key_range(para_id: u64, start: WrappingIndex<PageIndex>, count: u64) -> (r: Vec<
        QueuePageIndex,
    >)
        requires
            count <= usize::MAX,
        ensures
            r@.len() == count,
            forall|j: int|
                0 <= j < count ==> (#[trigger] r@[j]).para_id == para_id && r@[j].page_idx.value
                    == wrap_offset(start.value, j),
    {
        let mut keys: Vec<QueuePageIndex> = Vec::new();
        let mut page_idx = start;
        let mut j: u64 = 0;
        while j < count
            invariant
                0 <= j <= count,
                count <= usize::MAX,
                page_idx.value == wrap_offset(start.value, j as int),
                keys@.len() == j,
                forall|i: int|
                    0 <= i < j ==> (#[trigger] keys@[i]).para_id == para_id
                        && keys@[i].page_idx.value == wrap_offset(start.value, i),
            decreases count - j,
        {
            keys.push(QueuePageIndex { para_id, page_idx });
            page_idx = page_idx.wrapping_inc();
            proof {
                crate::indices::lemma_offset_step(start.value, j as int);
            }
            j = j + 1;
        }

        keys
    }
}

} // verus!
