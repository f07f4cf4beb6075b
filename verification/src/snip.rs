//! Cutting long text down to a byte budget, keeping whole characters and
//! appending a caller-formatted note.

use std::borrow::Cow;
use vstd::prelude::*;
use vstd::utf8::*;
use vstd::string::StringSliceAdditionalSpecFns;
use crate::utf8_text::{
    char_width, lemma_boundary_of_prefix, lemma_char_width_bounds, lemma_encode_concat,
    lemma_prefix_of_boundary, lemma_utf8_len_take_cons, lemma_utf8_len_take_monotone,
    lemma_utf8_len_concat, lemma_utf8_len_take_step, utf8_len,
};

verus! {

broadcast use vstd::utf8::group_utf8_lib;

/// What the note formatter of [`snip_long_text`] is told about the cut.
#[derive(Debug)]
pub struct SnipTextFmtCtx {
    /// Byte length of the whole text.
    pub bytes: usize,
    /// The byte budget that the text exceeded.
    pub max_bytes: usize,
}

/// The number of leading characters of `s` whose encoding fits in `limit` bytes.
pub open spec fn fitting_prefix_len(s: Seq<char>, limit: int) -> nat
    decreases s.len(),
{
    if s.len() == 0 || char_width(s[0]) > limit {
        0
    } else {
        1 + fitting_prefix_len(s.drop_first(), limit - char_width(s[0]))
    }
}

/// Bytes left for the text once a note of `note_bytes` bytes is reserved.
pub open spec fn room_for_text(max_bytes: nat, note_bytes: nat) -> nat {
    if note_bytes < max_bytes {
        (max_bytes - note_bytes) as nat
    } else {
        0
    }
}

/// A snipped text: the longest run of whole leading characters of `text` that
/// fits beside `note` within `max_bytes`, followed by `note`.
pub open spec fn snipped(text: Seq<char>, max_bytes: nat, note: Seq<char>) -> Seq<char> {
    text.take(fitting_prefix_len(text, room_for_text(max_bytes, utf8_len(note)) as int) as int)
        + note
}

/// The context handed to the formatter when `text` is cut to `max_bytes`.
pub open spec fn snip_ctx(text: Seq<char>, max_bytes: usize) -> SnipTextFmtCtx {
    SnipTextFmtCtx { bytes: utf8_len(text) as usize, max_bytes }
}

/// The fitting prefix is the longest whole-character prefix within the limit.
pub proof fn lemma_fitting_prefix_len(s: Seq<char>, limit: int)
    requires
        limit >= 0,
    ensures
        fitting_prefix_len(s, limit) <= s.len(),
        utf8_len(s.take(fitting_prefix_len(s, limit) as int)) <= limit,
        fitting_prefix_len(s, limit) < s.len() ==> utf8_len(
            s.take(fitting_prefix_len(s, limit) + 1int),
        ) > limit,
    decreases s.len(),
{
    let n = fitting_prefix_len(s, limit);
    if s.len() == 0 {
        assert(s.take(0) =~= Seq::<char>::empty());
    } else if char_width(s[0]) > limit {
        assert(s.take(0) =~= Seq::<char>::empty());
        lemma_utf8_len_take_step(s, 0);
    } else {
        let rest = s.drop_first();
        let w = char_width(s[0]);
        lemma_fitting_prefix_len(rest, limit - w);
        let m = fitting_prefix_len(rest, limit - w);
        lemma_utf8_len_take_cons(s, m as int);
        if m < rest.len() {
            lemma_utf8_len_take_cons(s, m + 1int);
        }
    }
}

/// Any prefix length that fits and cannot be extended is the fitting prefix length.
pub proof fn lemma_fitting_prefix_len_unique(s: Seq<char>, limit: int, k: int)
    requires
        0 <= k <= s.len(),
        utf8_len(s.take(k)) <= limit,
        k < s.len() ==> utf8_len(s.take(k + 1)) > limit,
    ensures
        fitting_prefix_len(s, limit) == k,
    decreases s.len(),
{
    if s.len() == 0 {
    } else {
        let w = char_width(s[0]);
        let rest = s.drop_first();
        lemma_char_width_bounds(s[0]);
        if w > limit {
            if k > 0 {
                lemma_utf8_len_take_cons(s, k - 1);
            }
        } else {
            if k == 0 {
                assert(s.take(0) =~= Seq::<char>::empty());
                lemma_utf8_len_take_step(s, 0);
            }
            lemma_utf8_len_take_cons(s, k - 1);
            if k < s.len() {
                lemma_utf8_len_take_cons(s, k);
            }
            lemma_fitting_prefix_len_unique(rest, limit - w, k - 1);
        }
    }
}

/// When the note fits within the budget, so does the snipped text.
pub proof fn lemma_snipped_fits(text: Seq<char>, max_bytes: nat, note: Seq<char>)
    requires
        utf8_len(note) <= max_bytes,
    ensures
        utf8_len(snipped(text, max_bytes, note)) <= max_bytes,
{
    let room = room_for_text(max_bytes, utf8_len(note));
    lemma_fitting_prefix_len(text, room as int);
    lemma_utf8_len_concat(text.take(fitting_prefix_len(text, room as int) as int), note);
}

/// When the note fits the budget, the snipped text is a run of whole leading
/// characters of the text followed by the note, and that run is the longest
/// one whose bytes fit beside the note within the budget.
pub proof fn lemma_snipped_cut(text: Seq<char>, max_bytes: nat, note: Seq<char>)
    requires
        utf8_len(note) <= max_bytes,
    ensures
        ({
            let out = snipped(text, max_bytes, note);
            let k = out.len() - note.len();
            &&& 0 <= k <= text.len()
            &&& out == text.take(k) + note
            &&& utf8_len(text.take(k)) + utf8_len(note) <= max_bytes
            &&& k < text.len() ==> utf8_len(text.take(k + 1)) + utf8_len(note) > max_bytes
        }),
{
    let room = room_for_text(max_bytes, utf8_len(note));
    assert(room == max_bytes - utf8_len(note));
    lemma_fitting_prefix_len(text, room as int);
}

/// A note longer than the budget leaves nothing of the text: the snipped text
/// is the note alone, and is over budget.
pub proof fn lemma_snipped_note_too_long(text: Seq<char>, max_bytes: nat, note: Seq<char>)
    requires
        utf8_len(note) > max_bytes,
    ensures
        snipped(text, max_bytes, note) == note,
        utf8_len(snipped(text, max_bytes, note)) > max_bytes,
{
    if text.len() > 0 {
        lemma_char_width_bounds(text[0]);
    }
    assert(text.take(0) + note =~= note);
}

/// Snips `text` to fit within `max_bytes` by appending a message from `snip_text_fmt`.
///
/// Text within the budget comes back unchanged. Longer text is cut after the
/// longest run of whole leading characters that leaves room for the message,
/// and the message follows. If the message alone is longer than `max_bytes`,
/// the result holds only the message and so exceeds `max_bytes`.
pub fn snip_long_text<'a>(
    text: Cow<'a, str>,
    max_bytes: usize,
    snip_text_fmt: impl Fn(SnipTextFmtCtx) -> String,
) -> (res: Cow<'a, str>)
    requires
        utf8_len(text@) > max_bytes ==> call_requires(
            snip_text_fmt,
            (snip_ctx(text@, max_bytes),),
        ),
    ensures
        utf8_len(text@) <= max_bytes ==> res == text,
        utf8_len(text@) > max_bytes ==> exists|note: String|
            #[trigger] call_ensures(snip_text_fmt, (snip_ctx(text@, max_bytes),), note)
                && res@ == snipped(text@, max_bytes as nat, note@),
{
    let s: &str = match &text {
        Cow::Borrowed(b) => b,
        Cow::Owned(o) => o.as_str(),
    };
    assert(s@ == text@);
    let text_len = s.as_bytes().len();
    if text_len <= max_bytes {
        return text;
    }
    let ghost chars = s@;
    let ghost bytes = encode_utf8(chars);
    let ctx = SnipTextFmtCtx { bytes: text_len, max_bytes };
    assert(ctx == snip_ctx(text@, max_bytes));
    let snip_msg = snip_text_fmt(ctx);
    let msg_len = snip_msg.as_str().as_bytes().len();
    let ghost room = max_bytes.saturating_sub(msg_len);
    let mut byte_limit = max_bytes.saturating_sub(msg_len);
    while byte_limit > 0 && !s.is_char_boundary(byte_limit)
        invariant
            byte_limit <= room,
            room < bytes.len(),
            bytes == s.spec_bytes(),
            chars == s@,
            forall|j: int| byte_limit < j <= room ==> !is_char_boundary(bytes, j),
        decreases byte_limit,
    {
        byte_limit = byte_limit - 1;
    }
    let ghost k: int;
    proof {
        if byte_limit == 0 {
            k = 0;
            assert(chars.take(0) =~= Seq::<char>::empty());
        } else {
            k = lemma_prefix_of_boundary(chars, byte_limit as int);
        }
        if k < chars.len() {
            lemma_boundary_of_prefix(chars, k + 1);
            lemma_utf8_len_take_monotone(chars, k, k + 1);
        }
        lemma_fitting_prefix_len_unique(chars, room as int, k);
        assert(chars =~= chars.take(k) + chars.skip(k));
        lemma_encode_concat(chars.take(k), chars.skip(k));
        assert(bytes.subrange(0, byte_limit as int) =~= encode_utf8(chars.take(k)));
    }
    let (head, _tail) = s.split_at(byte_limit);
    proof {
        assert(encode_utf8(head@) == encode_utf8(chars.take(k)));
        assert(decode_utf8(encode_utf8(head@)) == head@);
        assert(head@ == chars.take(k));
    }
    assert(room == room_for_text(max_bytes as nat, utf8_len(snip_msg@)));
    assert(k == fitting_prefix_len(text@, room as int));
    let mut result = String::new();
    result.append(head);
    result.append(snip_msg.as_str());
    assert(result@ == snipped(text@, max_bytes as nat, snip_msg@));
    Cow::Owned(result)
}

} // verus!
