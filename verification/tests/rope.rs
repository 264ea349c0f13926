use gbe::buffer::ViewWindow;
use gbe::rope::RopeBuffer;

#[test]
fn rope_test_new_buffer() {
    let buf = RopeBuffer::new();
    assert_eq!(buf.len(), 0);
    assert!(buf.is_empty());
}

#[test]
fn test_with_content() {
    let buf = RopeBuffer::with_content("hello world");
    assert_eq!(buf.len(), 11);
    assert_eq!(buf.content(), "hello world");
}

#[test]
fn test_insert() {
    let mut buf = RopeBuffer::new();
    buf.insert(0, "hello").unwrap();
    buf.insert(5, " world").unwrap();
    assert_eq!(buf.content(), "hello world");
}

#[test]
fn test_insert_middle() {
    let mut buf = RopeBuffer::with_content("hello world");
    buf.insert(5, " awesome").unwrap();
    assert_eq!(buf.content(), "hello awesome world");
}

#[test]
fn test_insert_out_of_bounds() {
    let mut buf = RopeBuffer::with_content("hello");
    let result = buf.insert(10, "x");
    assert!(result.is_err());
}

#[test]
fn test_delete() {
    let mut buf = RopeBuffer::with_content("hello world");
    buf.delete(5..11).unwrap();
    assert_eq!(buf.content(), "hello");
}

#[test]
fn test_delete_middle() {
    let mut buf = RopeBuffer::with_content("hello awesome world");
    buf.delete(5..13).unwrap(); // Delete " awesome" (not including final space)
    assert_eq!(buf.content(), "hello world");
}

#[test]
fn test_delete_invalid_range() {
    let mut buf = RopeBuffer::with_content("hello");
    let result = buf.delete(3..2);
    assert!(result.is_err());
}

#[test]
fn test_replace() {
    let mut buf = RopeBuffer::with_content("hello world");
    buf.replace(6..11, "rust").unwrap();
    assert_eq!(buf.content(), "hello rust");
}

#[test]
fn test_slice() {
    let buf = RopeBuffer::with_content("hello world");
    let slice = buf.slice(0..5).unwrap();
    assert_eq!(slice, "hello");
}

#[test]
fn rope_test_view_window() {
    let buf = RopeBuffer::with_content("line 1\nline 2\nline 3\nline 4");
    let view = buf.view(ViewWindow::new(1, 2));
    assert_eq!(view, vec!["line 2", "line 3"]);
}

#[test]
fn rope_test_view_window_overflow() {
    let buf = RopeBuffer::with_content("line 1\nline 2");
    let view = buf.view(ViewWindow::new(0, 10));
    assert_eq!(view.len(), 2);
}

#[test]
fn test_line_count() {
    let buf = RopeBuffer::with_content("line 1\nline 2\nline 3");
    assert_eq!(buf.line_count(), 3);
}

#[test]
fn test_line_count_empty() {
    let buf = RopeBuffer::new();
    assert_eq!(buf.line_count(), 0);
}

#[test]
fn test_get_line() {
    let buf = RopeBuffer::with_content("line 1\nline 2\nline 3");
    assert_eq!(buf.line(0).unwrap(), "line 1");
    assert_eq!(buf.line(1).unwrap(), "line 2");
    assert_eq!(buf.line(2).unwrap(), "line 3");
    assert!(buf.line(3).is_none());
}

#[test]
fn test_line_to_byte() {
    let buf = RopeBuffer::with_content("line 1\nline 2\nline 3");
    assert_eq!(buf.line_to_byte(0).unwrap(), 0);
    assert_eq!(buf.line_to_byte(1).unwrap(), 7); // "line 1\n"
    assert_eq!(buf.line_to_byte(2).unwrap(), 14); // "line 1\nline 2\n"
}

#[test]
fn test_byte_to_line() {
    let buf = RopeBuffer::with_content("line 1\nline 2\nline 3");
    assert_eq!(buf.byte_to_line(0).unwrap(), 0);
    assert_eq!(buf.byte_to_line(7).unwrap(), 1);
    assert_eq!(buf.byte_to_line(14).unwrap(), 2);
}

#[test]
fn rope_test_clear() {
    let mut buf = RopeBuffer::with_content("hello world");
    buf.clear();
    assert!(buf.is_empty());
    assert_eq!(buf.len(), 0);
}
