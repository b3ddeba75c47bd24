use dmp_queue::indices::{PageIndex, WrappingIndex};
use dmp_queue::ringbuf::{MessageWindow, MessageWindowState, RingBuffer, RingBufferState};

#[test]
fn ringbuf_extend() {
    let mut rb = RingBuffer::with_state(RingBufferState::default(), 0);
    assert!(rb.front().is_none());
    assert!(rb.last_used().is_none());

    let mut page = rb.extend();
    assert_eq!(page.page_idx, 0.into());
    page = rb.extend();
    assert_eq!(page.page_idx, 1.into());
    assert_eq!(rb.size(), 2);

    assert_eq!(rb.front().unwrap().page_idx, 0.into());
    assert_eq!(rb.last_used().unwrap().page_idx, 1.into());
}

#[test]
fn ringbuf_extend_loop_then_prune() {
    let mut rb = RingBuffer::with_state(RingBufferState::default(), 0);
    assert!(rb.front().is_none());
    assert!(rb.last_used().is_none());

    for _ in 0..1024 {
        rb.extend();
    }

    assert_eq!(rb.size(), 1024);
    assert_eq!(rb.front().unwrap().page_idx, 0.into());
    assert_eq!(rb.last_used().unwrap().page_idx, 1023.into());

    // Test we can prune 0 pages.
    rb.prune(0);
    assert_eq!(rb.size(), 1024);
    assert_eq!(rb.front().unwrap().page_idx, 0.into());
    assert_eq!(rb.last_used().unwrap().page_idx, 1023.into());

    // Test we can prune 1 page.
    rb.prune(1);
    assert_eq!(rb.size(), 1023);
    assert_eq!(rb.front().unwrap().page_idx, 1.into());
    assert_eq!(rb.last_used().unwrap().page_idx, 1023.into());

    // Test we can prune all pages.
    rb.prune(99999);
    assert_eq!(rb.size(), 0);
    assert_eq!(rb.front(), None);
    assert_eq!(rb.last_used(), None);
}

#[test]
fn ringbuf_extend_loop_then_pop_until_empty() {
    let mut rb = RingBuffer::with_state(RingBufferState::default(), 0);
    assert!(rb.front().is_none());
    assert!(rb.last_used().is_none());

    for _ in 0..1024 {
        rb.extend();
    }

    assert_eq!(rb.size(), 1024);
    assert_eq!(rb.front().unwrap().page_idx, 0.into());
    assert_eq!(rb.last_used().unwrap().page_idx, 1023.into());

    let mut idx: WrappingIndex<PageIndex> = 0u64.into();

    while rb.size() > 0 {
        let page = rb.pop_front().unwrap();
        assert_eq!(idx, page.page_idx);
        idx = idx.wrapping_inc();
    }

    assert_eq!(rb.size(), 0);
    assert_eq!(rb.front(), None);
    assert_eq!(rb.last_used(), None);
}

#[test]
fn ringbuf_extend_loop_then_iterate_wrap_around() {
    let mut head: WrappingIndex<PageIndex> = 0u64.into();
    head = head.wrapping_sub(512.into());
    let mut rb = RingBuffer::with_state(RingBufferState::new(head, head), 0);
    assert!(rb.front().is_none());
    assert!(rb.last_used().is_none());

    for _ in 0..1024 {
        rb.extend();
    }

    assert_eq!(rb.size(), 1024);
    assert_eq!(rb.front().unwrap().page_idx, head);
    assert_eq!(rb.last_used().unwrap().page_idx, 511.into());

    let mut idx = head;

    let mut iter = rb.into_iter();
    while let Some(page) = iter.next() {
        assert_eq!(idx, page.page_idx);
        idx = idx.wrapping_inc();
    }
}

#[test]
fn message_window_extend() {
    let mut window = MessageWindow::with_state(MessageWindowState::default(), 0);
    assert_eq!(window.size(), 0);
    assert_eq!(window.first(), None);
    assert_eq!(window.first_free().message_idx, 0.into());

    let msg_idx = window.extend(1).message_idx;
    assert_eq!(msg_idx, 0.into());
}

#[test]
fn message_window_extend_then_prune() {
    let mut window = MessageWindow::with_state(MessageWindowState::default(), 0);
    assert_eq!(window.size(), 0);
    assert_eq!(window.first(), None);
    assert_eq!(window.first_free().message_idx, 0.into());

    window.extend(1024);

    for _ in 0..1024 {
        window.extend(2);
    }

    window.extend(1024);

    assert_eq!(window.size(), 4096);
    assert_eq!(window.first().unwrap().message_idx, 0.into());
    assert_eq!(window.first_free().message_idx, 4096.into());

    // Test we can prune 0 messages.
    window.prune(0);
    assert_eq!(window.size(), 4096);
    assert_eq!(window.first().unwrap().message_idx, 0.into());
    assert_eq!(window.first_free().message_idx, 4096.into());

    // Test we can prune 1 message.
    window.prune(1);
    assert_eq!(window.size(), 4095);
    assert_eq!(window.first().unwrap().message_idx, 1.into());
    assert_eq!(window.first_free().message_idx, 4096.into());

    // Test we can prune all messages.
    window.prune(99999);
    assert_eq!(window.size(), 0);
    assert_eq!(window.first(), None);
    assert_eq!(window.first_free().message_idx, 4096.into());
}

#[test]
fn wrapping_index_wraps_at_space_end() {
    let top: WrappingIndex<PageIndex> = u64::MAX.into();
    assert_eq!(top.wrapping_inc().value, 0);
    let zero: WrappingIndex<PageIndex> = 0u64.into();
    assert_eq!(zero.wrapping_dec().value, u64::MAX);
    assert_eq!(top.wrapping_add(3.into()).value, 2);
    assert_eq!(zero.wrapping_sub(2.into()).value, u64::MAX - 1);
}
