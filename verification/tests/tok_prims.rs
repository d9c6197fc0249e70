use lib::objects::Objects;
use lib::prims::tok::{last_char, tok};

#[test]
fn the_buffer_marks_are_where_the_contract_says() {
    let mut a = Objects::new();
    let text = a.str_new("42 ");
    let b = a.buf(text, 0);
    assert_eq!(a.buf_retain(b), 0);
    assert_eq!(a.buf_cursor(b), 0);
    a.set_buf_cursor(b, 2);
    assert_eq!(a.buf_cursor(b), 2, "the cursor cell must round-trip");
    assert_eq!(a.buf_retain(b), 0, "and must not disturb the retain mark");
}

#[test]
fn tok_is_the_span_between_the_marks() {
    let mut a = Objects::new();
    let text = a.str_new("42 ");
    let b = a.buf(text, 0);
    a.set_buf_cursor(b, 2);
    let t = tok(&mut a, &[b]).expect("tok");
    assert_eq!(a.str_val(t), "42");
    assert_eq!(a.byte_len(t), 2);
}

#[test]
fn last_char_is_the_one_just_before_the_cursor() {
    let mut a = Objects::new();
    let text = a.str_new("42 ");
    let b = a.buf(text, 0);
    a.set_buf_cursor(b, 2);
    let c = last_char(&mut a, &[b]).expect("last-char");
    assert_eq!(a.as_char(c), b'2' as u32);
}
