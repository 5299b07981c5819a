use hayro_syntax::object::Object;
use hayro_syntax::reader::{Reader, ReaderContext};
use hayro_syntax::trivia::Comment;

#[test]
fn new_reader_starts_at_zero() {
    let data = b"hello";
    let r = Reader::new(data);
    assert_eq!(r.offset(), 0);
    assert_eq!(r.len(), 5);
    assert!(!r.at_end());
}

#[test]
fn new_with_starts_at_given_offset() {
    let data = b"hello";
    let mut r = Reader::new_with(data, 5);
    assert!(r.at_end());
    r.jump(2);
    assert_eq!(r.offset(), 2);
    r.jump_to_end();
    assert_eq!(r.offset(), 5);
}

#[test]
fn tail_and_range_slice_the_buffer() {
    let data = b"abcdef";
    let mut r = Reader::new_with(data, 2);
    assert_eq!(r.tail(), Some(&b"cdef"[..]));
    assert_eq!(r.range(1, 4), Some(&b"bcd"[..]));
    assert_eq!(r.range(4, 2), None);
    assert_eq!(r.range(2, 7), None);
}

#[test]
fn peek_does_not_advance_and_read_does() {
    let data = b"xyz";
    let mut r = Reader::new(data);
    assert_eq!(r.peek_byte(), Some(b'x'));
    assert_eq!(r.offset(), 0);
    assert_eq!(r.peek_bytes(2), Some(&b"xy"[..]));
    assert_eq!(r.peek_bytes(4), None);
    assert_eq!(r.read_byte(), Some(b'x'));
    assert_eq!(r.offset(), 1);
    assert_eq!(r.read_bytes(2), Some(&b"yz"[..]));
    assert!(r.at_end());
    assert_eq!(r.read_byte(), None);
    assert_eq!(r.offset(), 3);
}

#[test]
fn read_bytes_failure_leaves_offset_unchanged() {
    let data = b"xyz";
    let mut r = Reader::new_with(data, 1);
    assert_eq!(r.read_bytes(3), None);
    assert_eq!(r.offset(), 1);
    assert_eq!(r.skip_bytes(2), Some(()));
    assert_eq!(r.offset(), 3);
    assert_eq!(r.skip_bytes(1), None);
    assert_eq!(r.offset(), 3);
}

#[test]
fn eat_consumes_only_matching_bytes() {
    let data = b"ab";
    let mut r = Reader::new(data);
    assert_eq!(r.eat(|b| b == b'x'), None);
    assert_eq!(r.offset(), 0);
    assert_eq!(r.eat(|b| b == b'a'), Some(b'a'));
    assert_eq!(r.offset(), 1);
}

#[test]
fn forward_if_and_forward_while_stop_at_first_mismatch() {
    let data = b"aaab";
    let mut r = Reader::new(data);
    assert_eq!(r.forward_if(|b| b == b'a'), Some(()));
    assert_eq!(r.offset(), 1);
    r.forward_while(|b| b == b'a');
    assert_eq!(r.offset(), 3);
    assert_eq!(r.forward_while_1(|b| b == b'a'), None);
    assert_eq!(r.offset(), 3);
    assert_eq!(r.forward_while_1(|b| b == b'b'), Some(()));
    assert_eq!(r.offset(), 4);
}

#[test]
fn tags_match_without_moving_on_failure() {
    let data = b"stream data";
    let mut r = Reader::new(data);
    assert_eq!(r.peek_tag(b"stream"), Some(()));
    assert_eq!(r.offset(), 0);
    assert_eq!(r.forward_tag(b"strx"), None);
    assert_eq!(r.offset(), 0);
    assert_eq!(r.forward_tag(b"stream"), Some(()));
    assert_eq!(r.offset(), 6);
    assert_eq!(r.forward_tag(b" data and more"), None);
    assert_eq!(r.offset(), 6);
}

#[test]
fn skip_white_spaces_absorbs_the_pdf_whitespace_class() {
    let data = b"\x00\t\n\x0c\r x";
    let mut r = Reader::new(data);
    r.skip_white_spaces();
    assert_eq!(r.offset(), 6);
    assert_eq!(r.peek_byte(), Some(b'x'));
}

#[test]
fn crlf_is_one_terminator_of_two_bytes() {
    let mut r = Reader::new(b"\r\nx");
    assert_eq!(r.read_white_space(), Some(()));
    assert_eq!(r.offset(), 2);

    let mut r2 = Reader::new(b"\nx");
    assert_eq!(r2.read_white_space(), Some(()));
    assert_eq!(r2.offset(), 1);

    let mut r3 = Reader::new(b"\rx");
    assert_eq!(r3.read_white_space(), Some(()));
    assert_eq!(r3.offset(), 1);

    let mut r4 = Reader::new(b"x");
    assert_eq!(r4.read_white_space(), None);
    assert_eq!(r4.offset(), 0);
}

#[test]
fn skip_eol_characters_stops_at_other_bytes() {
    let mut r = Reader::new(b"\r\n\n\rq");
    r.skip_eol_characters();
    assert_eq!(r.offset(), 4);
}

#[test]
fn whitespace_and_comments_are_absorbed_together() {
    let data = b"  % a comment\r\n\t%second\n  7";
    let mut r = Reader::new(data);
    r.skip_white_spaces_and_comments();
    assert_eq!(r.peek_byte(), Some(b'7'));

    let mut r2 = Reader::new(b"% only a comment");
    r2.skip_white_spaces_and_comments();
    assert!(r2.at_end());

    let mut r3 = Reader::new(b"abc");
    r3.skip_white_spaces_and_comments();
    assert_eq!(r3.offset(), 0);
}

#[test]
fn failed_reads_restore_the_offset() {
    let data = b"zz 12";
    let ctx = ReaderContext::dummy();
    let mut r = Reader::new(data);
    let attempt: Option<Object> = r.read(&ctx);
    assert!(attempt.is_none());
    assert_eq!(r.offset(), 0);

    let mut r2 = Reader::new_with(data, 3);
    let ok: Option<Object> = r2.read(&ctx);
    assert_eq!(ok, Some(Object::Int(12)));
    assert_eq!(r2.offset(), 5);
}

#[test]
fn failed_skips_restore_the_offset() {
    let data = b"+x";
    let mut r = Reader::new(data);
    let attempt = r.skip::<Object>(false);
    assert!(attempt.is_none());
    assert_eq!(r.offset(), 0);

    let mut r2 = Reader::new(b"451 rest");
    let span = r2.skip::<Object>(false);
    assert_eq!(span, Some(&b"451"[..]));
    assert_eq!(r2.offset(), 3);
}

#[test]
fn read_without_context_behaves_as_content_stream() {
    let data = b"12 0 R";
    let mut r = Reader::new(data);
    let v: Option<Object> = r.read_without_context();
    assert_eq!(v, Some(Object::Int(12)));
    assert_eq!(r.offset(), 2);
}

#[test]
fn read_with_context_uses_the_mode_of_its_context() {
    let data = b"3 4 R";
    let plain = ReaderContext::dummy();
    let mut r = Reader::new(data);
    let v: Option<Object> = r.read_with_context(&plain);
    assert!(matches!(v, Some(Object::Ref(_))));
}

#[test]
fn comment_spans_run_to_the_end_of_line() {
    let mut r = Reader::new(b"%abc\ndef");
    let span = r.skip::<Comment>(false);
    assert_eq!(span, Some(&b"%abc"[..]));
    assert_eq!(r.offset(), 4);

    let mut r2 = Reader::new(b"def");
    assert_eq!(r2.skip::<Comment>(false), None);
    assert_eq!(r2.offset(), 0);
}

#[test]
fn skip_helpers_select_their_grammar_mode() {
    let data = b"12 0 R";

    let mut plain = Reader::new(data);
    let reference = plain.skip_not_in_content_stream::<Object>();
    assert_eq!(reference, Some(&b"12 0 R"[..]));
    assert_eq!(plain.offset(), 6);

    let mut content = Reader::new(data);
    let number = content.skip_in_content_stream::<Object>();
    assert_eq!(number, Some(&b"12"[..]));
    assert_eq!(content.offset(), 2);
}
