//! Character-level text helpers.
use vstd::prelude::*;

verus! {

/// `String::push`: appends one character.
#[verifier::external_body]
pub(crate) fn push_char(s: &mut String, c: char)
    ensures
        final(s)@ == old(s)@.push(c),
{
    s.push(c);
}

/// The characters of `s`, in order.
pub fn chars_of(s: &str) -> (v: Vec<char>)
    ensures
        v@ == s@,
{
    let mut v: Vec<char> = Vec::new();
    for c in it: s.chars()
        invariant
            v@ == it.seq().take(it.index() as int),
    {
        v.push(c);
    }
    v
}

/// Whether `c` is white space as `char::is_whitespace` counts it (the
/// Unicode `White_Space` property).
pub open spec fn is_white(c: char) -> bool {
    ||| c == ' '
    ||| ('\t' <= c && c <= '\r')
    ||| c == '\u{85}'
    ||| c == '\u{a0}'
    ||| c == '\u{1680}'
    ||| ('\u{2000}' <= c && c <= '\u{200a}')
    ||| c == '\u{2028}'
    ||| c == '\u{2029}'
    ||| c == '\u{202f}'
    ||| c == '\u{205f}'
    ||| c == '\u{3000}'
}

/// `s` without its leading white space.
pub open spec fn trim_start(s: Seq<char>) -> Seq<char>
    decreases s.len(),
{
    if s.len() > 0 && is_white(s[0]) {
        trim_start(s.drop_first())
    } else {
        s
    }
}

/// `s` without its trailing white space.
pub open spec fn trim_end(s: Seq<char>) -> Seq<char>
    decreases s.len(),
{
    if s.len() > 0 && is_white(s.last()) {
        trim_end(s.drop_last())
    } else {
        s
    }
}

/// `s` without leading and trailing white space, as `str::trim` gives it.
pub open spec fn trimmed(s: Seq<char>) -> Seq<char> {
    trim_end(trim_start(s))
}

/// Trimming the front drops the leading white space and nothing else: what
/// is left is a tail of `s`, everything dropped is white space, and what is
/// left does not start with white space.
pub proof fn lemma_trim_start(s: Seq<char>)
    ensures
        trim_start(s).len() <= s.len(),
        trim_start(s) == s.skip(s.len() - trim_start(s).len()),
        forall|i: int| 0 <= i < s.len() - trim_start(s).len() ==> #[trigger] is_white(s[i]),
        trim_start(s).len() > 0 ==> !is_white(trim_start(s)[0]),
    decreases s.len(),
{
    if s.len() > 0 && is_white(s[0]) {
        lemma_trim_start(s.drop_first());
        let t = trim_start(s.drop_first());
        assert(s.skip(s.len() - t.len()) =~= s.drop_first().skip(s.len() - 1 - t.len()));
        assert forall|i: int| 0 <= i < s.len() - t.len() implies #[trigger] is_white(s[i]) by {
            if i > 0 {
                assert(s[i] == s.drop_first()[i - 1]);
            }
        }
    } else {
        assert(s.skip(0) =~= s);
    }
}

/// Trimming the end drops the trailing white space and nothing else: what
/// is left is a head of `s`, everything dropped is white space, and what is
/// left does not end with white space.
pub proof fn lemma_trim_end(s: Seq<char>)
    ensures
        trim_end(s).len() <= s.len(),
        trim_end(s) == s.take(trim_end(s).len() as int),
        forall|i: int| trim_end(s).len() <= i < s.len() ==> #[trigger] is_white(s[i]),
        trim_end(s).len() > 0 ==> !is_white(trim_end(s).last()),
    decreases s.len(),
{
    if s.len() > 0 && is_white(s.last()) {
        lemma_trim_end(s.drop_last());
        let t = trim_end(s.drop_last());
        assert(s.take(t.len() as int) =~= s.drop_last().take(t.len() as int));
        assert forall|i: int| t.len() <= i < s.len() implies #[trigger] is_white(s[i]) by {
            if i < s.len() - 1 {
                assert(s[i] == s.drop_last()[i]);
            }
        }
    } else {
        assert(s.take(s.len() as int) =~= s);
    }
}

/// The text after the last `'/'` of `s` (all of `s` when it has none), as
/// `s.split('/').rev().next()` gives it.
pub open spec fn last_segment(s: Seq<char>) -> Seq<char>
    decreases s.len(),
{
    if s.len() == 0 || s.last() == '/' {
        Seq::empty()
    } else {
        last_segment(s.drop_last()).push(s.last())
    }
}

/// The last part of a text is what follows its last `'/'`, and only `'/'`
/// separates parts: it is a tail of the text that holds no `'/'`, and it is
/// either the whole text or preceded by a `'/'`. So a text `p` followed by
/// `'/'` and a text `t` without `'/'` ends in the part `t`, and a character
/// other than `'/'` added at the end is added to the last part.
pub proof fn lemma_last_segment(s: Seq<char>)
    ensures
        last_segment(s).len() <= s.len(),
        last_segment(s) == s.subrange(s.len() - last_segment(s).len(), s.len() as int),
        forall|i: int| 0 <= i < last_segment(s).len() ==> #[trigger] last_segment(s)[i] != '/',
        last_segment(s).len() < s.len() ==> s[s.len() - last_segment(s).len() - 1] == '/',
        forall|c: char| c != '/' ==> #[trigger] last_segment(s.push(c)) == last_segment(s).push(c),
        last_segment(s.push('/')) == Seq::<char>::empty(),
    decreases s.len(),
{
    assert forall|c: char| c != '/' implies #[trigger] last_segment(s.push(c)) == last_segment(s).push(c) by {
        assert(s.push(c).drop_last() =~= s);
    }
    if s.len() > 0 && s.last() != '/' {
        lemma_last_segment(s.drop_last());
        let t = last_segment(s.drop_last());
        assert(s.drop_last().subrange(s.len() - 1 - t.len(), s.len() - 1) == t);
        assert(last_segment(s) =~= s.subrange(s.len() - t.len() - 1, s.len() as int));
        if t.len() < s.len() - 1 {
            assert(s.drop_last()[s.len() - 1 - t.len() - 1] == '/');
        }
        assert forall|i: int| 0 <= i < last_segment(s).len() implies #[trigger] last_segment(s)[i] != '/' by {
            if i < t.len() {
                assert(last_segment(s)[i] == t[i]);
            }
        }
    } else {
        assert(s.subrange(s.len() as int, s.len() as int) =~= Seq::<char>::empty());
    }
}

/// The last part of `p`, a `'/'` and a text `t` that holds no `'/'` is `t`.
pub proof fn lemma_last_segment_after_slash(p: Seq<char>, t: Seq<char>)
    requires
        forall|i: int| 0 <= i < t.len() ==> #[trigger] t[i] != '/',
    ensures
        last_segment(p + seq!['/'] + t) == t,
    decreases t.len(),
{
    if t.len() == 0 {
        assert(p + seq!['/'] + t =~= p.push('/'));
        lemma_last_segment(p);
    } else {
        lemma_last_segment_after_slash(p, t.drop_last());
        assert(p + seq!['/'] + t =~= (p + seq!['/'] + t.drop_last()).push(t.last()));
        lemma_last_segment(p + seq!['/'] + t.drop_last());
        assert(t.drop_last().push(t.last()) =~= t);
    }
}

/// `char::is_whitespace`.
pub fn is_white_char(c: char) -> (r: bool)
    ensures
        r == is_white(c),
{
    c == ' ' || ('\t' <= c && c <= '\r') || c == '\u{85}' || c == '\u{a0}' || c == '\u{1680}'
        || ('\u{2000}' <= c && c <= '\u{200a}') || c == '\u{2028}' || c == '\u{2029}'
        || c == '\u{202f}' || c == '\u{205f}' || c == '\u{3000}'
}

/// The text of `cs[from..to]`.
pub fn string_of(cs: &Vec<char>, from: usize, to: usize) -> (s: String)
    requires
        from <= to <= cs.len(),
    ensures
        s@ == cs@.subrange(from as int, to as int),
{
    let mut s = String::new();
    let mut i: usize = from;
    while i < to
        invariant
            from <= i <= to <= cs.len(),
            s@ == cs@.subrange(from as int, i as int),
        decreases to - i,
    {
        push_char(&mut s, cs[i]);
        assert(cs@.subrange(from as int, i + 1) =~= cs@.subrange(from as int, i as int).push(cs@[i as int]));
        i = i + 1;
    }
    s
}

/// `str::trim`: `s` without leading and trailing white space.
pub fn trim(s: &str) -> (r: String)
    ensures
        r@ == trimmed(s@),
{
    let cs = chars_of(s);
    let n = cs.len();
    let mut i: usize = 0;
    assert(cs@.skip(0) =~= cs@);
    while i < n && is_white_char(cs[i])
        invariant
            i <= n == cs.len(),
            trim_start(cs@) == trim_start(cs@.skip(i as int)),
        decreases n - i,
    {
        assert(cs@.skip(i as int).drop_first() =~= cs@.skip(i + 1));
        i = i + 1;
    }
    let ghost front = cs@.skip(i as int);
    assert(trim_start(cs@) == front) by {
        if i == n {
            assert(front =~= Seq::<char>::empty());
        } else {
            assert(front[0] == cs@[i as int]);
        }
    }
    let mut j: usize = n;
    while j > i && is_white_char(cs[j - 1])
        invariant
            i <= j <= n == cs.len(),
            front == cs@.skip(i as int),
            trim_end(front) == trim_end(cs@.subrange(i as int, j as int)),
        decreases j,
    {
        assert(cs@.subrange(i as int, j as int).drop_last() =~= cs@.subrange(i as int, j - 1));
        j = j - 1;
    }
    assert(trim_end(cs@.subrange(i as int, j as int)) == cs@.subrange(i as int, j as int)) by {
        let t = cs@.subrange(i as int, j as int);
        if j > i {
            assert(t.last() == cs@[j - 1]);
        }
    }
    assert(front =~= cs@.subrange(i as int, n as int));
    string_of(&cs, i, j)
}

/// The text after the last `'/'` of `s`: the file name at the end of a URL.
pub fn last_path_segment(s: &str) -> (r: String)
    ensures
        r@ == last_segment(s@),
        r@.len() <= s@.len(),
        r@ == s@.subrange(s@.len() - r@.len(), s@.len() as int),
        forall|i: int| 0 <= i < r@.len() ==> #[trigger] r@[i] != '/',
        r@.len() < s@.len() ==> s@[s@.len() - r@.len() - 1] == '/',
{
    proof {
        lemma_last_segment(s@);
    }
    let cs = chars_of(s);
    let n = cs.len();
    let mut j: usize = n;
    assert(cs@.take(n as int) =~= cs@);
    assert(cs@.subrange(n as int, n as int) =~= Seq::<char>::empty());
    assert(last_segment(cs@) + Seq::<char>::empty() =~= last_segment(cs@));
    while j > 0 && cs[j - 1] != '/'
        invariant
            j <= n == cs.len(),
            last_segment(cs@) == last_segment(cs@.take(j as int)) + cs@.subrange(j as int, n as int),
        decreases j,
    {
        let ghost t = cs@.take(j as int);
        assert(t.drop_last() =~= cs@.take(j - 1));
        assert(t.last() == cs@[j - 1]);
        assert(last_segment(t) == last_segment(cs@.take(j - 1)).push(cs@[j - 1]));
        assert(cs@.subrange(j - 1, n as int) =~= seq![cs@[j - 1]] + cs@.subrange(j as int, n as int));
        assert(last_segment(cs@.take(j - 1)).push(cs@[j - 1]) + cs@.subrange(j as int, n as int)
            =~= last_segment(cs@.take(j - 1)) + cs@.subrange(j - 1, n as int));
        j = j - 1;
    }
    assert(last_segment(cs@.take(j as int)) =~= Seq::<char>::empty()) by {
        if j > 0 {
            assert(cs@.take(j as int).last() == cs@[j - 1]);
        }
    }
    assert(cs@.take(n as int) =~= cs@);
    string_of(&cs, j, n)
}

} // verus!
