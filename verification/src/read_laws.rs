//! What a whole read returns: the window driven over all the lines of a file.

use vstd::prelude::*;
use crate::read_window::{
    after_take, byte_limit_note, fresh_window, range_text, sat_pred, joined_lines, line_action, line_limit_note, LineAction,
    ReadWindowView,
};
use crate::decimal::decimal;
use crate::utf8_text::{lemma_encode_single, lemma_utf8_len_concat, utf8_len};

verus! {

/// The window `w` after the lines `lines`, numbered from `line_num` on, are
/// offered to it in order the way a reader does: each line is skipped, taken,
/// or the reading stops.
pub open spec fn read_through(w: ReadWindowView, lines: Seq<Seq<char>>, line_num: int) -> ReadWindowView
    decreases lines.len(),
{
    if lines.len() == 0 {
        w
    } else {
        match line_action(w, line_num as usize) {
            LineAction::Skip => read_through(w, lines.drop_first(), line_num + 1),
            LineAction::Stop => w,
            LineAction::Take => read_through(
                after_take(w, line_num as usize, lines[0]),
                lines.drop_first(),
                line_num + 1,
            ),
        }
    }
}

/// The last line number a read of `n` lines asks for when it ends at `end_line`.
pub open spec fn requested_end(n: nat, end_line: Option<usize>) -> int {
    match end_line {
        Some(e) => if e < n {
            e as int
        } else {
            n as int
        },
        None => n as int,
    }
}

/// The number of the first line a read starting at `start` asks for: lines
/// are numbered from 1, so a start of 0 asks for line 1 on.
pub open spec fn first_requested(start: usize) -> int {
    if start == 0 {
        1
    } else {
        start as int
    }
}

/// The lines `start..=end_line` of a file whose lines are `lines` (as many of
/// them as the file has).
pub open spec fn requested_lines(lines: Seq<Seq<char>>, start: usize, end_line: Option<usize>) -> Seq<
    Seq<char>,
> {
    let lo = first_requested(start) - 1;
    let hi = requested_end(lines.len(), end_line);
    if lo < hi {
        lines.subrange(lo, hi)
    } else {
        Seq::empty()
    }
}

/// One more line adds the line and its newline.
proof fn lemma_joined_push(a: Seq<Seq<char>>, l: Seq<char>)
    ensures
        joined_lines(a.push(l)) == joined_lines(a) + l + seq!['\n'],
        utf8_len(joined_lines(a.push(l))) == utf8_len(joined_lines(a)) + utf8_len(l) + 1,
{
    assert(a.push(l).drop_last() =~= a);
    lemma_utf8_len_concat(joined_lines(a), l);
    lemma_utf8_len_concat(joined_lines(a) + l, seq!['\n']);
    lemma_encode_single('\n');
}

/// Fewer lines never take more bytes.
proof fn lemma_joined_prefix_len(a: Seq<Seq<char>>, j: int)
    requires
        0 <= j <= a.len(),
    ensures
        utf8_len(joined_lines(a.take(j))) <= utf8_len(joined_lines(a)),
    decreases a.len() - j,
{
    if j < a.len() {
        lemma_joined_prefix_len(a, j + 1);
        assert(a.take(j + 1) =~= a.take(j).push(a[j]));
        lemma_joined_push(a.take(j), a[j]);
    } else {
        assert(a.take(j) =~= a);
    }
}

/// Lines before the range are passed over.
proof fn lemma_skip_run(w: ReadWindowView, lines: Seq<Seq<char>>, p: int, k: int)
    requires
        !w.truncated,
        0 <= k <= lines.len(),
        0 <= p,
        k > 0 ==> p + k <= w.range_start,
    ensures
        read_through(w, lines, p) == read_through(w, lines.skip(k), p + k),
    decreases k,
{
    if k == 0 {
        assert(lines.skip(0) =~= lines);
    } else {
        assert(line_action(w, p as usize) == LineAction::Skip);
        lemma_skip_run(w, lines.drop_first(), p + 1, k - 1);
        assert(lines.drop_first().skip(k - 1) =~= lines.skip(k));
    }
}

/// A read whose requested lines fit within both limits returns exactly those
/// lines, in order, untruncated and with no note; its range runs from the
/// first requested line to the last one the file has (or, when the file has
/// none of them, is `start,start-1`, or `0,0` for a start of 0).
pub proof fn lemma_range_read_in_full(
    lines: Seq<Seq<char>>,
    start: usize,
    end_line: Option<usize>,
    max_lines: usize,
    max_bytes: usize,
)
    requires
        lines.len() < usize::MAX,
        requested_lines(lines, start, end_line).len() <= max_lines,
        utf8_len(joined_lines(requested_lines(lines, start, end_line))) <= max_bytes,
    ensures
        ({
            let r = read_through(fresh_window(start, end_line, max_lines, max_bytes), lines, 1);
            let sel = requested_lines(lines, start, end_line);
            &&& r.taken == sel
            &&& !r.truncated
            &&& r.message == Seq::<char>::empty()
            &&& r.first_line == (if sel.len() > 0 {
                Some(first_requested(start) as usize)
            } else {
                None::<usize>
            })
            &&& r.last_line == (if sel.len() > 0 {
                requested_end(lines.len(), end_line) as usize
            } else {
                sat_pred(start)
            })
        }),
{
    lemma_range_read(lines, start, end_line, max_lines, max_bytes);
    let r = read_through(fresh_window(start, end_line, max_lines, max_bytes), lines, 1);
    let sel = requested_lines(lines, start, end_line);
    let m = r.taken.len() as int;
    if m < sel.len() {
        lemma_joined_prefix_len(sel, m + 1);
    }
    if sel.len() > 0 {
        assert(sel.take(sel.len() as int) =~= sel);
    }
}

/// Once a limit has cut a read short, no further line changes it.
proof fn lemma_stopped_stays(w: ReadWindowView, lines: Seq<Seq<char>>, p: int)
    requires
        w.truncated,
    ensures
        read_through(w, lines, p) == w,
{
}

/// The note a read leaves when the line at `line_num` is the first one that
/// does not fit: the line limit is checked before the byte limit.
pub open spec fn cut_note(kept: nat, line_num: nat, max_lines: usize, max_bytes: usize) -> Seq<char> {
    if kept >= max_lines {
        line_limit_note(line_num, max_lines as nat)
    } else {
        byte_limit_note(line_num, max_bytes as nat)
    }
}

/// Reading the last `t` in-range lines (and what follows them) from number `p`
/// on keeps a prefix of them: all of them if they fit, otherwise as many as fit,
/// ending the read with the note for the first line that does not.
proof fn lemma_read_run(w: ReadWindowView, lines: Seq<Seq<char>>, p: int, t: int)
    requires
        !w.truncated,
        w.range_start <= p,
        0 <= t <= lines.len(),
        p + lines.len() <= usize::MAX,
        w.end_line is None ==> t == lines.len(),
        w.end_line matches Some(e) ==> (t > 0 ==> p + t - 1 <= e) && (t < lines.len() ==> p + t > e),
        w.taken.len() <= w.max_lines,
        utf8_len(joined_lines(w.taken)) <= w.max_bytes,
    ensures
        ({
            let r = read_through(w, lines, p);
            let m = r.taken.len() - w.taken.len();
            &&& 0 <= m <= t
            &&& r.taken == w.taken + lines.take(m)
            &&& r.taken.len() <= w.max_lines
            &&& utf8_len(joined_lines(r.taken)) <= w.max_bytes
            &&& r.range_start == w.range_start
            &&& r.end_line == w.end_line
            &&& r.max_lines == w.max_lines
            &&& r.max_bytes == w.max_bytes
            &&& m > 0 ==> r.first_line == (if w.first_line is None {
                Some(p as usize)
            } else {
                w.first_line
            }) && r.last_line == (p + m - 1) as usize
            &&& m == 0 ==> r.first_line == w.first_line && r.last_line == w.last_line
            &&& m == t ==> !r.truncated && r.message == w.message
            &&& m < t ==> {
                &&& r.truncated
                &&& (r.taken.len() >= w.max_lines || utf8_len(
                    joined_lines(r.taken.push(lines[m])),
                ) > w.max_bytes)
                &&& r.message == cut_note(r.taken.len(), (p + m) as nat, w.max_lines, w.max_bytes)
            }
        }),
    decreases t,
{
    let r = read_through(w, lines, p);
    if t == 0 {
        assert(w.taken + lines.take(0) =~= w.taken);
        if lines.len() > 0 {
            assert(line_action(w, p as usize) == LineAction::Stop);
        }
    } else {
        assert(line_action(w, p as usize) == LineAction::Take);
        let l0 = lines[0];
        let rest = lines.drop_first();
        let w1 = after_take(w, p as usize, l0);
        lemma_joined_push(w.taken, l0);
        if w.taken.len() >= w.max_lines || utf8_len(joined_lines(w.taken)) + utf8_len(l0) + 1
            > w.max_bytes {
            lemma_stopped_stays(w1, rest, p + 1);
            assert(w.taken + lines.take(0) =~= w.taken);
        } else {
            lemma_read_run(w1, rest, p + 1, t - 1);
            let r1 = read_through(w1, rest, p + 1);
            let m1 = r1.taken.len() - w1.taken.len();
            assert(r1.taken == w.taken + lines.take(m1 + 1)) by {
                assert(w1.taken + rest.take(m1) =~= w.taken + lines.take(m1 + 1));
            }
            if m1 < t - 1 {
                assert(rest[m1] == lines[m1 + 1]);
            }
        }
    }
}

/// What a read returns: the requested lines (those from `start` to the end of
/// the range or of the file), kept in order for as long as both limits allow.
/// Either all of them come back and the read is not truncated, or the read is
/// truncated at the first requested line that would break a limit, everything
/// before it comes back, and the note names that line and the limit.
pub proof fn lemma_range_read(
    lines: Seq<Seq<char>>,
    start: usize,
    end_line: Option<usize>,
    max_lines: usize,
    max_bytes: usize,
)
    requires
        lines.len() < usize::MAX,
    ensures
        ({
            let r = read_through(fresh_window(start, end_line, max_lines, max_bytes), lines, 1);
            let sel = requested_lines(lines, start, end_line);
            let m = r.taken.len();
            &&& r.range_start == start
            &&& r.end_line == end_line
            &&& m <= sel.len()
            &&& r.taken == sel.take(m as int)
            &&& m <= max_lines
            &&& utf8_len(joined_lines(r.taken)) <= max_bytes
            &&& r.first_line == (if m > 0 {
                Some(first_requested(start) as usize)
            } else {
                None::<usize>
            })
            &&& r.last_line == (if m > 0 {
                (first_requested(start) + m - 1) as usize
            } else {
                sat_pred(start)
            })
            &&& m == sel.len() ==> !r.truncated && r.message == Seq::<char>::empty()
            &&& m < sel.len() ==> {
                &&& r.truncated
                &&& (m >= max_lines || utf8_len(joined_lines(sel.take(m + 1int))) > max_bytes)
                &&& r.message == cut_note(
                    m,
                    (first_requested(start) + m) as nat,
                    max_lines,
                    max_bytes,
                )
            }
        }),
{
    let w = fresh_window(start, end_line, max_lines, max_bytes);
    let n = lines.len() as int;
    let sel = requested_lines(lines, start, end_line);
    let hi = requested_end(lines.len(), end_line);
    assert(joined_lines(w.taken) == Seq::<char>::empty());
    assert(utf8_len(Seq::<char>::empty()) == 0);
    let first = first_requested(start);
    if first - 1 >= n {
        lemma_skip_run(w, lines, 1, n);
        assert(lines.skip(n) =~= Seq::<Seq<char>>::empty());
        assert(sel =~= Seq::<Seq<char>>::empty());
    } else {
        let k = first - 1;
        lemma_skip_run(w, lines, 1, k);
        let rest = lines.skip(k);
        let t: int = if hi > k {
            hi - k
        } else {
            0
        };
        assert(rest.take(t) =~= sel);
        lemma_read_run(w, rest, first, t);
        let r = read_through(w, rest, first);
        let m = r.taken.len() as int;
        assert(w.taken + rest.take(m) =~= sel.take(m));
        if m < t {
            assert(r.taken.push(rest[m]) =~= sel.take(m + 1));
        }
    }
}

/// Joining two runs of lines joins their texts.
proof fn lemma_joined_concat(a: Seq<Seq<char>>, b: Seq<Seq<char>>)
    ensures
        joined_lines(a + b) == joined_lines(a) + joined_lines(b),
    decreases b.len(),
{
    if b.len() == 0 {
        assert(a + b =~= a);
        assert(joined_lines(a) + joined_lines(b) =~= joined_lines(a));
    } else {
        lemma_joined_concat(a, b.drop_last());
        assert((a + b).drop_last() =~= a + b.drop_last());
        assert((a + b).last() == b.last());
        assert(joined_lines(a + b) =~= joined_lines(a) + joined_lines(b));
    }
}

/// A run of lines taken from the middle never takes more bytes than the whole.
proof fn lemma_joined_subrange_len(a: Seq<Seq<char>>, lo: int, hi: int)
    requires
        0 <= lo <= hi <= a.len(),
    ensures
        utf8_len(joined_lines(a.subrange(lo, hi))) <= utf8_len(joined_lines(a)),
{
    let x = a.take(lo);
    let y = a.subrange(lo, hi);
    let z = a.skip(hi);
    assert(a =~= x + y + z);
    lemma_joined_concat(x + y, z);
    lemma_joined_concat(x, y);
    lemma_utf8_len_concat(joined_lines(x) + joined_lines(y), joined_lines(z));
    lemma_utf8_len_concat(joined_lines(x), joined_lines(y));
}

/// When a read of the whole file comes back untruncated, so does a read of
/// any range of it under the same limits, and it holds exactly the lines of
/// that range.
pub proof fn lemma_range_of_full_read(
    lines: Seq<Seq<char>>,
    start: usize,
    end_line: Option<usize>,
    max_lines: usize,
    max_bytes: usize,
)
    requires
        lines.len() < usize::MAX,
        !read_through(fresh_window(1, None, max_lines, max_bytes), lines, 1).truncated,
    ensures
        ({
            let r = read_through(fresh_window(start, end_line, max_lines, max_bytes), lines, 1);
            &&& !r.truncated
            &&& r.taken == requested_lines(lines, start, end_line)
            &&& r.message == Seq::<char>::empty()
        }),
{
    lemma_range_read(lines, 1, None, max_lines, max_bytes);
    let all = requested_lines(lines, 1, None);
    assert(all =~= lines);
    let full = read_through(fresh_window(1, None, max_lines, max_bytes), lines, 1);
    assert(full.taken.len() == all.len());
    assert(full.taken =~= lines);
    let sel = requested_lines(lines, start, end_line);
    let lo = first_requested(start) - 1;
    let hi = requested_end(lines.len(), end_line);
    if lo < hi {
        lemma_joined_subrange_len(lines, lo, hi);
    } else {
        assert(joined_lines(sel) == Seq::<char>::empty());
        assert(utf8_len(Seq::<char>::empty()) == 0);
    }
    lemma_range_read_in_full(lines, start, end_line, max_lines, max_bytes);
}

/// Raising the limits of a read only lets more of the same lines through: the
/// read under the lower limits returns a prefix of what the read under the
/// higher ones returns; if it was not truncated, the higher read is the same
/// read; and if the higher read is truncated, so was the lower one.
pub proof fn lemma_raising_limits(
    lines: Seq<Seq<char>>,
    start: usize,
    end_line: Option<usize>,
    max_lines1: usize,
    max_bytes1: usize,
    max_lines2: usize,
    max_bytes2: usize,
)
    requires
        lines.len() < usize::MAX,
        max_lines1 <= max_lines2,
        max_bytes1 <= max_bytes2,
    ensures
        ({
            let r1 = read_through(fresh_window(start, end_line, max_lines1, max_bytes1), lines, 1);
            let r2 = read_through(fresh_window(start, end_line, max_lines2, max_bytes2), lines, 1);
            &&& r1.taken.len() <= r2.taken.len()
            &&& r1.taken == r2.taken.take(r1.taken.len() as int)
            &&& joined_lines(r1.taken) == joined_lines(r2.taken).take(
                joined_lines(r1.taken).len() as int,
            )
            &&& !r1.truncated ==> {
                &&& r2.taken == r1.taken
                &&& !r2.truncated
                &&& r2.message == r1.message
                &&& r2.first_line == r1.first_line
                &&& r2.last_line == r1.last_line
            }
            &&& r2.truncated ==> r1.truncated
        }),
{
    lemma_range_read(lines, start, end_line, max_lines1, max_bytes1);
    lemma_range_read(lines, start, end_line, max_lines2, max_bytes2);
    let r1 = read_through(fresh_window(start, end_line, max_lines1, max_bytes1), lines, 1);
    let r2 = read_through(fresh_window(start, end_line, max_lines2, max_bytes2), lines, 1);
    let sel = requested_lines(lines, start, end_line);
    let m1 = r1.taken.len() as int;
    let m2 = r2.taken.len() as int;
    if m2 < m1 {
        assert(sel.take(m2 + 1) =~= sel.take(m1).take(m2 + 1));
        lemma_joined_prefix_len(sel.take(m1), m2 + 1);
        assert(false);
    }
    assert(r1.taken =~= r2.taken.take(m1));
    assert(r2.taken =~= r1.taken + r2.taken.skip(m1));
    lemma_joined_concat(r1.taken, r2.taken.skip(m1));
    assert(joined_lines(r1.taken) =~= joined_lines(r2.taken).take(
        joined_lines(r1.taken).len() as int,
    ));
}

/// A read that returns `m > 0` lines reports its range as the first requested
/// line number and that number plus `m - 1`, in decimal, with a comma between;
/// a read that returns none reports the start and the line before it.
pub proof fn lemma_reported_range(
    lines: Seq<Seq<char>>,
    start: usize,
    end_line: Option<usize>,
    max_lines: usize,
    max_bytes: usize,
)
    requires
        lines.len() < usize::MAX,
    ensures
        ({
            let r = read_through(fresh_window(start, end_line, max_lines, max_bytes), lines, 1);
            let m = r.taken.len();
            let first = match r.first_line {
                Some(f) => f,
                None => r.range_start,
            };
            &&& m > 0 ==> range_text(first as nat, r.last_line as nat) == decimal(
                first_requested(start) as nat,
            ) + ","@ + decimal((first_requested(start) + m - 1) as nat)
            &&& m == 0 ==> range_text(first as nat, r.last_line as nat) == decimal(start as nat)
                + ","@ + decimal(sat_pred(start) as nat)
        }),
{
    lemma_range_read(lines, start, end_line, max_lines, max_bytes);
}

} // verus!
