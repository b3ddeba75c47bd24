use dmp_queue::dmp::{
    DmqContentsBounds, HostConfiguration, Pallet, ProcessedDownwardMessagesAcceptanceErr,
    QueueDownwardMessageError,
};
use dmp_queue::indices::{MessageIndex, WrappingIndex};
use dmp_queue::ringbuf::{MessageWindow, RingBuffer};
use dmp_queue::weights::RuntimeDbWeight;

const DB_WEIGHT: RuntimeDbWeight = RuntimeDbWeight { read: 25_000_000, write: 100_000_000 };

fn config() -> HostConfiguration {
    HostConfiguration { max_downward_message_size: 51_200 }
}

fn enqueue(pallet: &mut Pallet, para: u64, payload: &[u8], sent_at: u32) {
    pallet
        .queue_downward_message(&config(), para, payload.to_vec(), sent_at)
        .expect("message fits");
}

fn msg_idx(value: u64) -> WrappingIndex<MessageIndex> {
    WrappingIndex::new(value)
}

fn payloads(pallet: &Pallet, para: u64, start_page: u32, pages: u32) -> Vec<Vec<u8>> {
    pallet
        .dmq_contents_bounded(
            para,
            DmqContentsBounds { start_page_index: start_page, page_count: pages },
        )
        .into_iter()
        .map(|m| m.msg)
        .collect()
}

#[test]
fn enqueue_splits_messages_into_pages() {
    // Page capacity 2: five messages must land as [A,B], [C,D], [E].
    let mut pallet = Pallet::new(2, DB_WEIGHT);
    let para = 7;

    for (i, payload) in [b"A", b"B", b"C", b"D", b"E"].iter().enumerate() {
        enqueue(&mut pallet, para, *payload, i as u32 + 1);
    }

    assert_eq!(pallet.dmq_length(para), 5);
    let state = pallet.dmp_queue_state(para);
    assert_eq!(RingBuffer::with_state(state.ring_buffer_state, para).size(), 3);
    assert_eq!(MessageWindow::with_state(state.message_window_state, para).size(), 5);

    assert_eq!(
        payloads(&pallet, para, 0, 3),
        vec![b"A".to_vec(), b"B".to_vec(), b"C".to_vec(), b"D".to_vec(), b"E".to_vec()],
    );
    assert_eq!(payloads(&pallet, para, 0, 1), vec![b"A".to_vec(), b"B".to_vec()]);
    assert_eq!(payloads(&pallet, para, 1, 1), vec![b"C".to_vec(), b"D".to_vec()]);
    assert_eq!(payloads(&pallet, para, 2, 1), vec![b"E".to_vec()]);
    assert!(pallet.assert_storage_consistency_exhaustive(para));
}

#[test]
fn prune_drops_pages_and_splits_the_front_page() {
    // The five-message queue from the paging scenario, pruned by 3:
    // page [A,B] is dropped, [C,D] is trimmed to [D], [E] survives.
    let mut pallet = Pallet::new(2, DB_WEIGHT);
    let para = 7;
    for (i, payload) in [b"A", b"B", b"C", b"D", b"E"].iter().enumerate() {
        enqueue(&mut pallet, para, *payload, i as u32 + 1);
    }

    let heads_before: Vec<Vec<u8>> =
        (0..5).map(|i| pallet.dmq_mqc_head_for_message(para, msg_idx(i))).collect();
    let global_before = pallet.dmq_mqc_head(para);

    assert!(pallet.check_processed_downward_messages(para, 3).is_ok());
    let w = pallet.prune_dmq(para, 3);
    // One whole page dropped, one page split, three chain heads removed:
    // 4 reads and 8 writes in all.
    assert_eq!(w.ref_time, 4 * 25_000_000 + 8 * 100_000_000);

    assert_eq!(pallet.dmq_length(para), 2);
    let state = pallet.dmp_queue_state(para);
    assert_eq!(RingBuffer::with_state(state.ring_buffer_state, para).size(), 2);
    assert_eq!(state.message_window_state.first_message_idx.value, 3);

    assert_eq!(payloads(&pallet, para, 0, 3), vec![b"D".to_vec(), b"E".to_vec()]);
    assert_eq!(payloads(&pallet, para, 0, 1), vec![b"D".to_vec()]);
    assert_eq!(payloads(&pallet, para, 1, 1), vec![b"E".to_vec()]);

    // The chain heads of A, B and C are deleted; D's and E's survive
    // unchanged, and the global head is untouched by pruning.
    let zero = vec![0u8; 32];
    for i in 0..3 {
        assert_eq!(pallet.dmq_mqc_head_for_message(para, msg_idx(i)), zero);
    }
    assert_eq!(pallet.dmq_mqc_head_for_message(para, msg_idx(3)), heads_before[3]);
    assert_eq!(pallet.dmq_mqc_head_for_message(para, msg_idx(4)), heads_before[4]);
    assert_eq!(pallet.dmq_mqc_head(para), global_before);
    assert!(pallet.assert_storage_consistency_exhaustive(para));
}

#[test]
fn prune_past_the_end_empties_the_queue() {
    let mut pallet = Pallet::new(2, DB_WEIGHT);
    let para = 3;
    for i in 0..3u32 {
        enqueue(&mut pallet, para, b"payload", i);
    }
    assert_eq!(pallet.dmq_length(para), 3);

    // Pruning more than the queue holds empties window and ring buffer.
    pallet.prune_dmq(para, 5);
    assert_eq!(pallet.dmq_length(para), 0);
    let state = pallet.dmp_queue_state(para);
    assert_eq!(
        state.ring_buffer_state.head_page_idx.value,
        state.ring_buffer_state.tail_page_idx.value,
    );
    assert_eq!(
        state.message_window_state.first_message_idx.value,
        state.message_window_state.free_message_idx.value,
    );

    // Doing it again is safe and changes nothing.
    pallet.prune_dmq(para, 5);
    let state_again = pallet.dmp_queue_state(para);
    assert_eq!(state_again, state);
    assert_eq!(pallet.dmq_length(para), 0);
    assert!(pallet.assert_storage_consistency_exhaustive(para));
}

#[test]
fn check_processed_downward_messages_rules() {
    let mut pallet = Pallet::new(2, DB_WEIGHT);
    let para = 9;

    // An empty queue accepts only a count of zero.
    assert!(pallet.check_processed_downward_messages(para, 0).is_ok());
    assert!(matches!(
        pallet.check_processed_downward_messages(para, 1),
        Err(ProcessedDownwardMessagesAcceptanceErr::Underflow {
            processed_downward_messages: 1,
            dmq_length: 0,
        }),
    ));

    enqueue(&mut pallet, para, b"one", 1);
    enqueue(&mut pallet, para, b"two", 2);

    // A consumer with pending messages must make progress.
    assert!(matches!(
        pallet.check_processed_downward_messages(para, 0),
        Err(ProcessedDownwardMessagesAcceptanceErr::AdvancementRule),
    ));
    assert!(pallet.check_processed_downward_messages(para, 1).is_ok());
    assert!(pallet.check_processed_downward_messages(para, 2).is_ok());
    // And can never claim more than are pending.
    assert!(matches!(
        pallet.check_processed_downward_messages(para, 3),
        Err(ProcessedDownwardMessagesAcceptanceErr::Underflow {
            processed_downward_messages: 3,
            dmq_length: 2,
        }),
    ));
}

#[test]
fn oversized_message_is_rejected_without_any_change() {
    let mut pallet = Pallet::new(2, DB_WEIGHT);
    let para = 11;
    let config = HostConfiguration { max_downward_message_size: 4 };

    let r = pallet.queue_downward_message(&config, para, vec![0u8; 5], 1);
    assert!(matches!(r, Err(QueueDownwardMessageError::ExceedsMaxMessageSize)));
    assert_eq!(pallet.dmq_length(para), 0);
    assert!(pallet.dmq_contents(para).is_empty());

    // A message of exactly the maximum size is accepted.
    assert!(pallet.queue_downward_message(&config, para, vec![0u8; 4], 1).is_ok());
    assert_eq!(pallet.dmq_length(para), 1);
}

#[test]
fn retire_removes_pages_and_chain_head() {
    // Channel Y with 3 occupied pages.
    let mut pallet = Pallet::new(2, DB_WEIGHT);
    let para = 21;
    for i in 0..5u32 {
        enqueue(&mut pallet, para, b"payload", i);
    }
    let state = pallet.dmp_queue_state(para);
    assert_eq!(RingBuffer::with_state(state.ring_buffer_state, para).size(), 3);
    assert_ne!(pallet.dmq_mqc_head(para), vec![0u8; 32]);

    pallet.clean_dmp_after_outgoing(para);

    assert_eq!(pallet.dmq_length(para), 0);
    assert!(pallet.dmq_contents(para).is_empty());
    assert_eq!(pallet.dmq_mqc_head(para), vec![0u8; 32]);
    let state = pallet.dmp_queue_state(para);
    assert_eq!(RingBuffer::with_state(state.ring_buffer_state, para).size(), 0);
    assert!(pallet.assert_storage_consistency_exhaustive(para));
}

#[test]
fn cleanup_retires_each_outgoing_channel_and_no_other() {
    let mut pallet = Pallet::new(2, DB_WEIGHT);
    for para in [1u64, 2, 3] {
        enqueue(&mut pallet, para, b"payload", 1);
    }

    pallet.perform_outgoing_para_cleanup(&vec![1, 3]);

    assert_eq!(pallet.dmq_length(1), 0);
    assert_eq!(pallet.dmq_length(2), 1);
    assert_eq!(pallet.dmq_length(3), 0);
}

#[test]
fn mqc_replay_is_deterministic() {
    // Two independent engines fed identical (marker, message) sequences
    // arrive at identical chain heads, message by message.
    let mut a = Pallet::new(4, DB_WEIGHT);
    let mut b = Pallet::new(4, DB_WEIGHT);
    let para = 2;
    for (i, payload) in [b"x" as &[u8], b"yy", b"zzz"].iter().enumerate() {
        enqueue(&mut a, para, payload, i as u32);
        enqueue(&mut b, para, payload, i as u32);
        assert_eq!(a.dmq_mqc_head(para), b.dmq_mqc_head(para));
        assert_eq!(
            a.dmq_mqc_head_for_message(para, msg_idx(i as u64)),
            b.dmq_mqc_head_for_message(para, msg_idx(i as u64)),
        );
    }
}

#[test]
fn mqc_head_advances_with_each_enqueue() {
    let mut pallet = Pallet::new(4, DB_WEIGHT);
    let para = 2;
    let zero = vec![0u8; 32];
    assert_eq!(pallet.dmq_mqc_head(para), zero);

    enqueue(&mut pallet, para, b"first", 5);
    let head_one = pallet.dmq_mqc_head(para);
    assert_eq!(head_one.len(), 32);
    assert_ne!(head_one, zero);

    enqueue(&mut pallet, para, b"second", 6);
    let head_two = pallet.dmq_mqc_head(para);
    assert_ne!(head_two, head_one);

    // The head recorded for each message is the global head right after
    // that message was appended.
    assert_eq!(pallet.dmq_mqc_head_for_message(para, msg_idx(1)), head_two);
    assert_eq!(pallet.dmq_mqc_head_for_message(para, msg_idx(0)), head_one);
    // Indices outside the live window read as the zero hash.
    assert_eq!(pallet.dmq_mqc_head_for_message(para, msg_idx(2)), zero);
}

#[test]
fn bounded_read_edge_cases() {
    let mut pallet = Pallet::new(2, DB_WEIGHT);
    let para = 4;

    // Unknown channel.
    assert!(payloads(&pallet, para, 0, 3).is_empty());

    for i in 0..3u32 {
        enqueue(&mut pallet, para, b"payload", i);
    }

    // Zero pages requested.
    assert!(payloads(&pallet, para, 0, 0).is_empty());
    // Start past the last occupied page.
    assert!(payloads(&pallet, para, 2, 1).is_empty());
    assert!(payloads(&pallet, para, 17, 5).is_empty());
    // A request overlapping the end is clipped.
    assert_eq!(payloads(&pallet, para, 1, 9).len(), 1);
    // A non-empty queue with pages in range returns at least one message.
    assert_eq!(payloads(&pallet, para, 0, 1).len(), 2);
}

#[test]
fn key_ranges_enumerate_wrapped_indices() {
    let near_top = WrappingIndex::new(u64::MAX - 1);
    let keys = Pallet::mqc_head_key_range(6, near_top, 4);
    let values: Vec<u64> = keys.iter().map(|k| k.message_idx.value).collect();
    assert_eq!(values, vec![u64::MAX - 1, u64::MAX, 0, 1]);
    assert!(keys.iter().all(|k| k.para_id == 6));

    let pages = Pallet::page_key_range(6, WrappingIndex::new(u64::MAX), 3);
    let values: Vec<u64> = pages.iter().map(|k| k.page_idx.value).collect();
    assert_eq!(values, vec![u64::MAX, 0, 1]);
}

#[test]
fn lazily_created_channel_starts_from_zero() {
    let mut pallet = Pallet::new(2, DB_WEIGHT);
    let para = 42;
    assert_eq!(pallet.dmq_length(para), 0);
    enqueue(&mut pallet, para, b"hello", 1);
    assert_eq!(pallet.dmq_length(para), 1);
    let state = pallet.dmp_queue_state(para);
    assert_eq!(state.message_window_state.first_message_idx.value, 0);
    assert_eq!(state.message_window_state.free_message_idx.value, 1);
    assert_eq!(state.ring_buffer_state.head_page_idx.value, 0);
    assert_eq!(state.ring_buffer_state.tail_page_idx.value, 1);
}

#[test]
fn capacity_one_gives_every_message_its_own_page() {
    let mut pallet = Pallet::new(1, DB_WEIGHT);
    let para = 5;
    for i in 0..4u32 {
        enqueue(&mut pallet, para, b"m", i);
    }
    let state = pallet.dmp_queue_state(para);
    assert_eq!(RingBuffer::with_state(state.ring_buffer_state, para).size(), 4);
    assert_eq!(payloads(&pallet, para, 1, 1).len(), 1);
    assert!(pallet.assert_storage_consistency_exhaustive(para));
}

#[test]
fn enqueue_returns_the_database_cost() {
    let mut pallet = Pallet::new(2, DB_WEIGHT);
    let w = pallet.queue_downward_message(&config(), 1, b"m".to_vec(), 1).unwrap();
    // 6 reads and 4 writes in all.
    assert_eq!(w.ref_time, 6 * 25_000_000 + 4 * 100_000_000);
    assert_eq!(w.proof_size, 0);
}
