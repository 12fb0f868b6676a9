//! Splitting a byte range among download tasks, one `Range` request header
//! per task.
use vstd::prelude::*;
use reqwest::header::HeaderValue;
use crate::decimal::{decimal, all_digits, is_digit, push_decimal};
use crate::text::push_char;

verus! {

#[verifier::external_type_specification]
#[verifier::external_body]
pub struct ExHeaderValue(reqwest::header::HeaderValue);

/// Whether `HeaderValue::from_str` accepts `text`: every byte of it is
/// visible (at least 32 and not 127) or a tab. A character past ASCII is
/// encoded in bytes of 128 and more, which are all accepted.
pub open spec fn header_text_ok(text: Seq<char>) -> bool {
    forall|i: int|
        0 <= i < text.len() ==> ((#[trigger] text[i] as int >= 32 && text[i] as int != 127)
            || text[i] == '\t')
}

/// The header value that `HeaderValue::from_str` makes of `text`: its bytes
/// are those of `text`, and it is not marked sensitive.
pub uninterp spec fn header_value_of(text: Seq<char>) -> HeaderValue;

/// `HeaderValue::from_str`: succeeds exactly when every byte of `text` is
/// allowed in a header value, and then holds the bytes of `text`.
#[verifier::external_body]
fn header_value_from_str(text: &str) -> (r: Option<HeaderValue>)
    ensures
        r is Some <==> header_text_ok(text@),
        r matches Some(h) ==> h == header_value_of(text@),
{
    HeaderValue::from_str(text).ok()
}

/// The text of the `Range` header that asks for the bytes `start..=end`:
/// `bytes=<start>-<end>`.
pub open spec fn range_text(start: nat, end: nat) -> Seq<char> {
    seq!['b', 'y', 't', 'e', 's', '='] + decimal(start) + seq!['-'] + decimal(end)
}

/// The pieces that `count` tasks fetch of the bytes `start..=end`: each of
/// `(end - start) / count` bytes, but the last, which runs to `end`. Each
/// piece is `(first, last)`, both inclusive.
pub open spec fn range_pieces(start: int, end: int, count: int) -> Seq<(int, int)> {
    let size = (end - start) / count;
    Seq::new(
        count as nat,
        |k: int|
            if k == count - 1 {
                (start + k * size, end)
            } else {
                (start + k * size, start + (k + 1) * size - 1)
            },
    )
}

/// Whether every piece of `start..=end` among `count` tasks ends at or after
/// byte 0: a piece that is not the last ends one byte before the next one
/// starts, which is below 0 only when the range starts at 0 and the pieces
/// are empty.
pub open spec fn pieces_in_range(start: int, end: int, count: int) -> bool {
    start > 0 || count == 1 || (end - start) / count >= 1
}

/// The pieces of `start..=end` among `count` tasks: there are `count` of
/// them; the first begins at `start` and the last ends at `end`; each begins
/// on the byte after the one before it ends; each but the last holds
/// `(end - start) / count` bytes and the last holds the rest. When the range
/// is at least `count` bytes past its first byte, no piece is empty.
pub proof fn lemma_pieces_cover(start: int, end: int, count: int)
    requires
        0 < count,
        0 <= start <= end,
    ensures
        ({
            let p = range_pieces(start, end, count);
            let size = (end - start) / count;
            &&& p.len() == count
            &&& p[0].0 == start
            &&& p[count - 1].1 == end
            &&& forall|i: int| 0 <= i < count - 1 ==> #[trigger] p[i + 1].0 == p[i].1 + 1
            &&& forall|i: int| 0 <= i < count - 1 ==> #[trigger] p[i].1 - p[i].0 + 1 == size
            &&& p[count - 1].1 - p[count - 1].0 + 1 == size + (end - start) % count + 1
            &&& end - start >= count ==> forall|i: int| 0 <= i < count ==> #[trigger] p[i].0 <= p[i].1
            &&& pieces_in_range(start, end, count) ==> forall|i: int| 0 <= i < count ==> #[trigger] p[i].1 >= 0
        }),
{
    let p = range_pieces(start, end, count);
    let size = (end - start) / count;
    assert(0 * size == 0) by (nonlinear_arith);
    assert(end - start == count * size + (end - start) % count) by (nonlinear_arith)
        requires
            size == (end - start) / count,
            count > 0,
    {
    }
    assert(0 <= (end - start) % count < count) by (nonlinear_arith)
        requires
            count > 0,
    {
    }
    assert(size >= 0) by (nonlinear_arith)
        requires
            size == (end - start) / count,
            count > 0,
            start <= end,
    {
    }
    assert(p[count - 1].1 - p[count - 1].0 + 1 == size + (end - start) % count + 1) by {
        assert((count - 1) * size == count * size - size) by (nonlinear_arith);
    }
    assert forall|i: int| 0 <= i < count - 1 implies #[trigger] p[i + 1].0 == p[i].1 + 1 by {
    }
    assert forall|i: int| 0 <= i < count - 1 implies #[trigger] p[i].1 - p[i].0 + 1 == size by {
        assert((i + 1) * size == i * size + size) by (nonlinear_arith);
    }
    assert forall|i: int| 0 <= i < count && end - start >= count implies #[trigger] p[i].0 <= p[i].1 by {
        if i < count - 1 {
            assert((i + 1) * size == i * size + size) by (nonlinear_arith);
            assert(size >= 1) by (nonlinear_arith)
                requires
                    size == (end - start) / count,
                    end - start >= count,
                    count > 0,
            {
            }
        } else {
            assert((count - 1) * size <= count * size) by (nonlinear_arith)
                requires
                    size >= 0,
            {
            }
        }
    }
    assert forall|i: int| 0 <= i < count && pieces_in_range(start, end, count) implies #[trigger] p[i].1 >= 0 by {
        if i < count - 1 {
            assert((i + 1) * size >= size) by (nonlinear_arith)
                requires
                    i >= 0,
                    size >= 0,
            {
            }
            if start <= 0 {
                assert(size >= 1);
            }
        }
    }
}

/// After `k - 1` pieces of `start..=end` among `count` tasks have been
/// handed out, what is left starts with the `k`-th piece, which begins at
/// `start + (k - 1) * size` and ends at `start + k * size - 1`, or at `end`
/// when it is the last (`size` is `(end - start) / count`); handing it out
/// leaves the pieces from the `k + 1`-th on. Once all `count` pieces have
/// been handed out nothing is left, so `count` pieces come out and no more.
pub proof fn lemma_kth_piece(start: int, end: int, count: int, k: int)
    requires
        0 < count,
        start <= end,
        1 <= k <= count,
    ensures
        ({
            let p = range_pieces(start, end, count);
            let size = (end - start) / count;
            &&& p.skip(k - 1).len() == count - k + 1
            &&& p.skip(k - 1)[0] == (start + (k - 1) * size, if k == count {
                end
            } else {
                start + k * size - 1
            })
            &&& p.skip(k - 1).drop_first() == p.skip(k)
            &&& p.skip(count).len() == 0
        }),
{
    let p = range_pieces(start, end, count);
    let size = (end - start) / count;
    assert(p.skip(k - 1)[0] == p[k - 1]);
    assert(((k - 1) + 1) * size == k * size);
    assert(p.skip(k - 1).drop_first() =~= p.skip(k));
}

/// The split of `start..=end` among `count` tasks can go ahead exactly when
/// every piece ends at or after byte 0: only a range that starts at byte 0,
/// split among more tasks than it has bytes past its first, has a piece that
/// would end before it. Whether the length divides evenly plays no part.
pub proof fn lemma_pieces_in_range_exact(start: int, end: int, count: int)
    requires
        0 < count,
        0 <= start <= end,
    ensures
        pieces_in_range(start, end, count) <==> forall|i: int|
            0 <= i < count ==> #[trigger] range_pieces(start, end, count)[i].1 >= 0,
        (start > 0 || count == 1 || end - start >= count) ==> pieces_in_range(start, end, count),
{
    lemma_pieces_cover(start, end, count);
    let p = range_pieces(start, end, count);
    let size = (end - start) / count;
    if end - start >= count {
        assert(size >= 1) by (nonlinear_arith)
            requires
                size == (end - start) / count,
                end - start >= count,
                count > 0,
        {
        }
    }
    if !pieces_in_range(start, end, count) {
        assert(0 * size == 0) by (nonlinear_arith);
        assert(p[0].1 == start + size - 1);
        assert(p[0].1 < 0);
    }
}

/// Whether every piece of `start..=end` among `count` tasks ends at or after
/// byte 0.
pub fn pieces_end_in_range(start: u64, end: u64, count: u64) -> (r: bool)
    requires
        count > 0,
        start <= end,
    ensures
        r == pieces_in_range(start as int, end as int, count as int),
        r <==> forall|i: int|
            0 <= i < count ==> #[trigger] range_pieces(start as int, end as int, count as int)[i].1 >= 0,
{
    proof {
        lemma_pieces_in_range_exact(start as int, end as int, count as int);
    }
    start > 0 || count == 1 || (end - start) / count >= 1
}

/// The `Range` header text for the bytes `start..=end`.
pub fn range_header(start: u64, end: u64) -> (s: String)
    ensures
        s@ == range_text(start as nat, end as nat),
{
    let mut s = String::new();
    push_char(&mut s, 'b');
    push_char(&mut s, 'y');
    push_char(&mut s, 't');
    push_char(&mut s, 'e');
    push_char(&mut s, 's');
    push_char(&mut s, '=');
    push_decimal(&mut s, start);
    push_char(&mut s, '-');
    push_decimal(&mut s, end);
    assert(s@ =~= range_text(start as nat, end as nat));
    s
}

/// The `Range` header text of any two numbers is accepted as a header
/// value: it holds only letters, `=`, `-` and digits.
pub proof fn lemma_range_text_ok(start: nat, end: nat)
    ensures
        header_text_ok(range_text(start, end)),
{
    crate::decimal::lemma_decimal_digits(start);
    crate::decimal::lemma_decimal_digits(end);
    let t = range_text(start, end);
    let a = decimal(start);
    let b = decimal(end);
    assert forall|i: int| 0 <= i < t.len() implies ((#[trigger] t[i] as int >= 32 && t[i] as int != 127)
        || t[i] == '\t') by {
        if 6 <= i < 6 + a.len() {
            assert(t[i] == a[i - 6]);
            assert(is_digit(a[i - 6]));
        } else if 7 + a.len() <= i {
            assert(t[i] == b[i - 7 - a.len()]);
            assert(is_digit(b[i - 7 - a.len()]));
        }
    }
}

/// The `Range` header value for the bytes `start..=end`.
pub fn range_header_value(start: u64, end: u64) -> (h: HeaderValue)
    ensures
        h == header_value_of(range_text(start as nat, end as nat)),
{
    let text = range_header(start, end);
    proof {
        lemma_range_text_ok(start as nat, end as nat);
    }
    match header_value_from_str(text.as_str()) {
        Some(h) => h,
        None => {
            assert(false);
            header_value_from_str(text.as_str()).unwrap()
        },
    }
}

/// Hands out the pieces of a byte range among a number of tasks, in order.
pub struct RangeIter {
    start: u64,
    end: u64,
    buffer_size: u64,
    task_count: u64,
    now_at: u64,
}

impl RangeIter {
    #[verifier::type_invariant]
    spec fn inv(self) -> bool {
        &&& self.task_count > 0
        &&& self.now_at <= self.task_count
        &&& self.now_at < self.task_count ==> self.start + (self.task_count - self.now_at - 1)
            * self.buffer_size <= self.end
    }

    /// The pieces not yet handed out.
    pub closed spec fn remaining(self) -> Seq<(int, int)> {
        Seq::new(
            (self.task_count - self.now_at) as nat,
            |j: int|
                if self.now_at + j == self.task_count - 1 {
                    (self.start + j * self.buffer_size, self.end as int)
                } else {
                    (self.start + j * self.buffer_size, self.start + (j + 1) * self.buffer_size - 1)
                },
        )
    }
}

impl View for RangeIter {
    type V = Seq<(int, int)>;

    closed spec fn view(&self) -> Seq<(int, int)> {
        self.remaining()
    }
}

impl RangeIter {
    /// Splits the bytes `start..=end` among `task_count` tasks.
    pub fn new(start: u64, end: u64, task_count: u64) -> (r: Self)
        requires
            task_count > 0,
            start <= end,
        ensures
            r@ == range_pieces(start as int, end as int, task_count as int),
    {
        let now_at: u64 = 0;
        let buffer_size = (end - start) / task_count;
        assert((task_count - 1) * buffer_size <= end - start) by (nonlinear_arith)
            requires
                buffer_size == (end - start) as int / task_count as int,
                task_count > 0,
                start <= end,
        {
        }
        let r = RangeIter { start, end, buffer_size, task_count, now_at };
        assert(r@ =~= range_pieces(start as int, end as int, task_count as int));
        r
    }

    /// Hands out the next piece with its `Range` header value; `None` once
    /// every piece has been handed out.
    pub fn next(&mut self) -> (r: Option<(HeaderValue, u64, u64)>)
        requires
            old(self)@.len() > 0 ==> old(self)@[0].1 >= 0,
        ensures
            r is None <==> old(self)@.len() == 0,
            r is None ==> final(self)@ == old(self)@,
            r matches Some((h, a, b)) ==> {
                &&& old(self)@[0] == (a as int, b as int)
                &&& final(self)@ == old(self)@.drop_first()
                &&& h == header_value_of(range_text(a as nat, b as nat))
            },
    {
        proof {
            use_type_invariant(&*self);
        }
        let ghost pre = self@;
        if self.now_at >= self.task_count {
            assert(pre.len() == 0);
            None
        } else {
            let prev_start = self.start;
            let now_at = self.now_at + 1;
            if now_at == self.task_count {
                let end = self.end;
                *self = RangeIter {
                    start: self.start,
                    end: self.end,
                    buffer_size: self.buffer_size,
                    task_count: self.task_count,
                    now_at,
                };
                assert(pre[0] == (prev_start as int, end as int));
                assert(self@ =~= pre.drop_first());
                Some((range_header_value(prev_start, end), prev_start, end))
            } else {
                let buf = self.buffer_size;
                let left = self.task_count - self.now_at - 1;
                assert(left >= 1);
                assert(buf <= left * buf) by (nonlinear_arith)
                    requires
                        left >= 1,
                {
                }
                let start = self.start + buf;
                assert(pre[0] == (prev_start as int, prev_start + buf - 1)) by {
                    assert((0int + 1) * (buf as int) == buf) by (nonlinear_arith);
                }
                assert(start >= 1);
                assert(start + (left - 1) * buf == prev_start + left * buf) by (nonlinear_arith)
                    requires
                        start == prev_start + buf,
                        left >= 1,
                {
                }
                *self = RangeIter {
                    start,
                    end: self.end,
                    buffer_size: buf,
                    task_count: self.task_count,
                    now_at,
                };
                let last = start - 1;
                assert forall|j: int| 0 <= j < self@.len() implies #[trigger] self@[j] == pre.drop_first()[j] by {
                    assert(start + j * buf == prev_start + (j + 1) * buf) by (nonlinear_arith)
                        requires
                            start == prev_start + buf,
                    {
                    }
                    assert(start + (j + 1) * buf == prev_start + (j + 2) * buf) by (nonlinear_arith)
                        requires
                            start == prev_start + buf,
                    {
                    }
                }
                assert(self@ =~= pre.drop_first());
                Some((range_header_value(prev_start, last), prev_start, last))
            }
        }
    }
}

} // verus!
