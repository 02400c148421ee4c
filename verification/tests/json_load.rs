use typst_memtables::json_load::{check_json_start, Interner, JsonStartError};

#[test]
fn interning_gives_back_the_same_text() {
    let mut interner = Interner::new();
    let a = interner.intern("currency");
    let b = interner.intern("amount");
    let c = interner.intern("currency");
    assert_eq!(a.as_str(), "currency");
    assert_eq!(b.as_str(), "amount");
    assert_eq!(c.as_str(), "currency");
}

#[test]
fn repeated_long_strings_share_one_allocation() {
    let mut interner = Interner::new();
    let text = "a rather long dictionary key that does not fit inline";
    let first = interner.intern(text);
    let second = interner.intern(text);
    assert_eq!(first, second);
    assert_eq!(first.as_ptr(), second.as_ptr());
    let other = interner.intern("another rather long key that is stored on the heap");
    assert_ne!(first.as_ptr(), other.as_ptr());
}

#[test]
fn byte_order_mark_is_refused() {
    let err = check_json_start(b"\xef\xbb\xbf{}").expect_err("bom");
    assert_eq!(err, JsonStartError::ByteOrderMark);
    assert_eq!(err.position(), (1, 1));
    assert_eq!(err.message(), "failed to parse JSON");
    assert_eq!(err.reason(), "unexpected Byte Order Mark");
    assert_eq!(err.hint(), "JSON requires UTF-8 without a BOM");
}

#[test]
fn plain_json_passes_the_start_check() {
    assert_eq!(check_json_start(b"{\"a\": 1}"), Ok(()));
    assert_eq!(check_json_start(b"\xef\xbb"), Ok(()));
    assert_eq!(check_json_start(b""), Ok(()));
}
