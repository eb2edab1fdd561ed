use memors::pattern::{code, ida, Signature};

fn sig(bytes: Vec<u8>, mask: Vec<bool>) -> Signature {
    Signature { bytes, mask }
}

#[test]
fn both_notations_give_the_same_signature() {
    let a = ida("FF ?? 0A 7c");
    let b = code("\\xFF\\x00\\x0A\\x7c");
    assert_eq!(a, b);
    assert_eq!(a, sig(vec![255, 0, 10, 124], vec![true, false, true, true]));
}

#[test]
fn ida_splits_on_any_whitespace() {
    assert_eq!(ida("  01\t02\n\r03  "), sig(vec![1, 2, 3], vec![true, true, true]));
    assert_eq!(ida("0a\u{3000}B"), sig(vec![10, 11], vec![true, true]));
}

#[test]
fn ida_empty_pattern() {
    assert_eq!(ida(""), sig(vec![], vec![]));
    assert_eq!(ida("   "), sig(vec![], vec![]));
}

#[test]
fn ida_token_with_question_mark_is_wildcard() {
    assert_eq!(ida("A? ?B ???"), sig(vec![0, 0, 0], vec![false, false, false]));
}

#[test]
fn ida_reads_zero_as_exact_byte() {
    assert_eq!(ida("00 0 +F 00ff"), sig(vec![0, 0, 15, 255], vec![true, true, true, true]));
}

#[test]
fn code_zero_escape_is_wildcard() {
    assert_eq!(code("\\x00"), sig(vec![0], vec![false]));
}

#[test]
fn code_unreadable_escape_is_exact_zero() {
    assert_eq!(code("\\xZZ\\x\\x100\\x-1"), sig(vec![0, 0, 0, 0], vec![true, true, true, true]));
}

#[test]
fn code_ignores_text_before_first_escape() {
    assert_eq!(code("junk\\x01\\x0"), sig(vec![1, 0], vec![true, true]));
    assert_eq!(code("no escapes"), sig(vec![], vec![]));
    assert_eq!(code(""), sig(vec![], vec![]));
}

#[test]
fn code_reads_longer_escape_as_one_number() {
    assert_eq!(code("\\x0FF\\x+a"), sig(vec![255, 10], vec![true, true]));
}
