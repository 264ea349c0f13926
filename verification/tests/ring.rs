use gbe::buffer::ViewWindow;
use gbe::ring::RingBuffer;

#[test]
fn ring_test_new_buffer() {
    let buf = RingBuffer::new(10);
    assert_eq!(buf.capacity(), 10);
    assert_eq!(buf.len(), 0);
    assert!(buf.is_empty());
    assert!(!buf.is_full());
}

#[test]
fn test_push() {
    let mut buf = RingBuffer::new(3);
    buf.push("line 1".to_string());
    buf.push("line 2".to_string());
    assert_eq!(buf.len(), 2);
    assert_eq!(buf.lines(), vec!["line 1", "line 2"]);
}

#[test]
fn test_push_eviction() {
    let mut buf = RingBuffer::new(3);
    buf.push("line 1".to_string());
    buf.push("line 2".to_string());
    buf.push("line 3".to_string());
    buf.push("line 4".to_string()); // Should evict "line 1"

    assert_eq!(buf.len(), 3);
    assert_eq!(buf.lines(), vec!["line 2", "line 3", "line 4"]);
    assert!(buf.is_full());
}

#[test]
fn test_total_pushed() {
    let mut buf = RingBuffer::new(2);
    buf.push("line 1".to_string());
    buf.push("line 2".to_string());
    buf.push("line 3".to_string());
    buf.push("line 4".to_string());

    assert_eq!(buf.total_pushed(), 4);
    assert_eq!(buf.len(), 2);
}

#[test]
fn test_push_lines() {
    let mut buf = RingBuffer::new(5);
    buf.push_lines(vec![
        "line 1".to_string(),
        "line 2".to_string(),
        "line 3".to_string(),
    ]);

    assert_eq!(buf.len(), 3);
    assert_eq!(buf.lines(), vec!["line 1", "line 2", "line 3"]);
}

#[test]
fn test_get() {
    let mut buf = RingBuffer::new(5);
    buf.push("line 1".to_string());
    buf.push("line 2".to_string());
    buf.push("line 3".to_string());

    assert_eq!(buf.get(0), Some("line 1"));
    assert_eq!(buf.get(1), Some("line 2"));
    assert_eq!(buf.get(2), Some("line 3"));
    assert_eq!(buf.get(3), None);
}

#[test]
fn ring_test_view_window() {
    let mut buf = RingBuffer::new(10);
    for i in 1..=5 {
        buf.push(format!("line {i}"));
    }

    let view = buf.view(ViewWindow::new(1, 2));
    assert_eq!(view, vec!["line 2", "line 3"]);
}

#[test]
fn ring_test_view_window_overflow() {
    let mut buf = RingBuffer::new(10);
    buf.push("line 1".to_string());
    buf.push("line 2".to_string());

    let view = buf.view(ViewWindow::new(0, 10));
    assert_eq!(view.len(), 2);
}

#[test]
fn test_tail() {
    let mut buf = RingBuffer::new(10);
    for i in 1..=5 {
        buf.push(format!("line {i}"));
    }

    let tail = buf.tail(2);
    assert_eq!(tail, vec!["line 4", "line 5"]);
}

#[test]
fn test_tail_more_than_available() {
    let mut buf = RingBuffer::new(10);
    buf.push("line 1".to_string());
    buf.push("line 2".to_string());

    let tail = buf.tail(10);
    assert_eq!(tail, vec!["line 1", "line 2"]);
}

#[test]
fn test_head() {
    let mut buf = RingBuffer::new(10);
    for i in 1..=5 {
        buf.push(format!("line {i}"));
    }

    let head = buf.head(2);
    assert_eq!(head, vec!["line 1", "line 2"]);
}

#[test]
fn test_oldest_newest() {
    let mut buf = RingBuffer::new(3);
    buf.push("line 1".to_string());
    buf.push("line 2".to_string());
    buf.push("line 3".to_string());

    assert_eq!(buf.oldest(), Some("line 1"));
    assert_eq!(buf.newest(), Some("line 3"));

    buf.push("line 4".to_string()); // Evicts "line 1"
    assert_eq!(buf.oldest(), Some("line 2"));
    assert_eq!(buf.newest(), Some("line 4"));
}

#[test]
fn test_search() {
    let mut buf = RingBuffer::new(10);
    buf.push("ERROR: something wrong".to_string());
    buf.push("INFO: all good".to_string());
    buf.push("ERROR: another issue".to_string());
    buf.push("DEBUG: trace info".to_string());

    let results = buf.search("ERROR");
    assert_eq!(results.len(), 2);
    assert_eq!(results[0].0, 0);
    assert_eq!(results[1].0, 2);
}

#[test]
fn ring_test_clear() {
    let mut buf = RingBuffer::new(5);
    buf.push("line 1".to_string());
    buf.push("line 2".to_string());

    buf.clear();
    assert!(buf.is_empty());
    assert_eq!(buf.len(), 0);
    assert_eq!(buf.total_pushed(), 0);
}

#[test]
fn test_resize_smaller() {
    let mut buf = RingBuffer::new(5);
    for i in 1..=5 {
        buf.push(format!("line {i}"));
    }

    buf.resize(3);
    assert_eq!(buf.capacity(), 3);
    assert_eq!(buf.len(), 3);
    assert_eq!(buf.lines(), vec!["line 3", "line 4", "line 5"]);
}

#[test]
fn test_resize_larger() {
    let mut buf = RingBuffer::new(3);
    buf.push("line 1".to_string());
    buf.push("line 2".to_string());

    buf.resize(10);
    assert_eq!(buf.capacity(), 10);
    assert_eq!(buf.len(), 2);
    assert_eq!(buf.lines(), vec!["line 1", "line 2"]);
}

#[test]
fn test_memory_usage() {
    let mut buf = RingBuffer::new(10);
    buf.push("test".to_string());
    buf.push("data".to_string());

    let usage = buf.memory_usage();
    assert!(usage > 0);
}
