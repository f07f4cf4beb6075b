use std::borrow::Cow;

use code_assistant::snip::{snip_long_text, SnipTextFmtCtx};

#[test]
fn snip_long_text_does_not_snip_short_text() {
    let short_text = "Hello";
    let max_bytes = 5;
    let result = snip_long_text(short_text.into(), max_bytes, |_| String::from("..."));
    assert_eq!(result, "Hello");
}

#[test]
fn snip_long_text_snips_ascii_text() {
    let long_text = "Hello, World!".repeat(3);
    let max_bytes = 35;
    let result = snip_long_text(long_text.into(), max_bytes, |ctx| {
        format!("... bytes: {}, max_bytes: {}", ctx.bytes, ctx.max_bytes)
    });
    assert_eq!(result, "Hello, ... bytes: 39, max_bytes: 35");
}

#[test]
fn snip_long_text_snips_unicode_text() {
    let long_text = "こんにちは、世界！".repeat(3);
    let max_bytes = 32;
    let result = snip_long_text(long_text.into(), max_bytes, |ctx| {
        format!("... bytes: {}, max_bytes: {}", ctx.bytes, ctx.max_bytes)
    });
    assert_eq!(result, "こ... bytes: 81, max_bytes: 32");
}

#[test]
fn snip_keeps_borrowed_text_that_fits() {
    let text = "fits exactly";
    let result = snip_long_text(Cow::Borrowed(text), text.len(), |_| String::from("!"));
    assert!(matches!(result, Cow::Borrowed(_)));
    assert_eq!(result, "fits exactly");
}

#[test]
fn snip_result_fits_when_note_fits() {
    let text = "abcdefghijklmnopqrstuvwxyz";
    let result = snip_long_text(text.into(), 10, |_| String::from("[cut]"));
    assert_eq!(result, "abcde[cut]");
    assert!(result.len() <= 10);
}

#[test]
fn snip_note_longer_than_budget_is_all_that_remains() {
    let result = snip_long_text("some text".into(), 3, |_| String::from("a long note"));
    assert_eq!(result, "a long note");
}

#[test]
fn snip_never_splits_a_character() {
    // Each "é" takes two bytes; a budget of 5 with a one-byte note leaves 4 bytes.
    let result = snip_long_text("ééééé".into(), 5, |_| String::from("~"));
    assert_eq!(result, "éé~");
    // A budget of 4 leaves 3 bytes: only one whole "é" fits.
    let result = snip_long_text("ééééé".into(), 4, |_| String::from("~"));
    assert_eq!(result, "é~");
}

#[test]
fn snip_formatter_sees_length_and_budget() {
    let seen = std::cell::Cell::new((0usize, 0usize));
    let _ = snip_long_text("0123456789".into(), 4, |ctx: SnipTextFmtCtx| {
        seen.set((ctx.bytes, ctx.max_bytes));
        String::new()
    });
    assert_eq!(seen.get(), (10, 4));
}
