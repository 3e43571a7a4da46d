//! Searching and splitting text.
//!
//! The specifications speak of sequences of characters. The executable functions work on the
//! UTF-8 bytes of a `&str` without copying it, for patterns that are made of ASCII characters.

use vstd::prelude::*;
use vstd::utf8::*;

verus! {

/// `pat` stands in `s` at position `i`.
pub open spec fn occurs_at(s: Seq<char>, pat: Seq<char>, i: int) -> bool {
    0 <= i && i + pat.len() <= s.len() && s.subrange(i, i + pat.len()) == pat
}

/// `pat` stands somewhere in `s`.
pub open spec fn occurs(s: Seq<char>, pat: Seq<char>) -> bool {
    exists|i: int| occurs_at(s, pat, i)
}

/// `i` is the leftmost position of `pat` in `s`.
pub open spec fn first_at(s: Seq<char>, pat: Seq<char>, i: int) -> bool {
    occurs_at(s, pat, i) && forall|j: int| 0 <= j < i ==> !occurs_at(s, pat, j)
}

/// What stands before and after the leftmost `pat` in `s`, if there is one.
pub open spec fn split_once_spec(s: Seq<char>, pat: Seq<char>) -> Option<(Seq<char>, Seq<char>)> {
    if occurs(s, pat) {
        let i = choose|i: int| first_at(s, pat, i);
        Some((s.take(i), s.skip(i + pat.len())))
    } else {
        None
    }
}

/// The pieces of `s` between the non-overlapping occurrences of `pat`, from the left.
pub open spec fn split_spec(s: Seq<char>, pat: Seq<char>) -> Seq<Seq<char>>
    decreases s.len(),
{
    if pat.len() == 0 {
        seq![s]
    } else {
        match split_once_spec(s, pat) {
            Some((before, after)) => {
                proof {
                    lemma_split_once_is_first(s, pat);
                }
                seq![before] + split_spec(after, pat)
            },
            None => seq![s],
        }
    }
}

/// `s` with every occurrence of `from` (found from the left, not overlapping) replaced by `to`.
pub open spec fn replace_spec(s: Seq<char>, from: Seq<char>, to: Seq<char>) -> Seq<char>
    decreases s.len(),
{
    if from.len() == 0 {
        s
    } else {
        match split_once_spec(s, from) {
            Some((before, after)) => {
                proof {
                    lemma_split_once_is_first(s, from);
                }
                before + to + replace_spec(after, from, to)
            },
            None => s,
        }
    }
}

/// `s` up to the first `pat`, or all of `s` where there is none.
pub open spec fn before_first(s: Seq<char>, pat: Seq<char>) -> Seq<char> {
    split_spec(s, pat)[0]
}

/// The second piece of `s` split at `pat`, or nothing where there is only one.
pub open spec fn second_piece(s: Seq<char>, pat: Seq<char>) -> Seq<char> {
    if split_spec(s, pat).len() > 1 {
        split_spec(s, pat)[1]
    } else {
        Seq::empty()
    }
}

/// Where a pattern occurs, it occurs leftmost somewhere.
pub proof fn lemma_first_exists(s: Seq<char>, pat: Seq<char>, i: int)
    requires
        occurs_at(s, pat, i),
    ensures
        exists|k: int| k <= i && first_at(s, pat, k),
    decreases i,
{
    if forall|j: int| 0 <= j < i ==> !occurs_at(s, pat, j) {
        assert(first_at(s, pat, i));
    } else {
        let j = choose|j: int| 0 <= j < i && occurs_at(s, pat, j);
        lemma_first_exists(s, pat, j);
    }
}

/// `split_once_spec` cuts at the leftmost occurrence.
pub proof fn lemma_split_once_is_first(s: Seq<char>, pat: Seq<char>)
    requires
        occurs(s, pat),
    ensures
        split_once_spec(s, pat) matches Some((before, after)) && first_at(
            s,
            pat,
            before.len() as int,
        ) && before == s.take(before.len() as int) && after == s.skip((before.len() + pat.len()) as int)
            && s == before + pat + after && before.len() + pat.len() + after.len() == s.len(),
{
    let w = choose|i: int| occurs_at(s, pat, i);
    lemma_first_exists(s, pat, w);
    let i = choose|i: int| first_at(s, pat, i);
    assert(s.take(i).len() == i);
    assert(s =~= s.take(i) + pat + s.skip(i + pat.len()));
}

/// The leftmost occurrence is where `split_once_spec` cuts.
pub proof fn lemma_first_is_split_once(s: Seq<char>, pat: Seq<char>, i: int)
    requires
        first_at(s, pat, i),
    ensures
        split_once_spec(s, pat) == Some((s.take(i), s.skip(i + pat.len()))),
{
    lemma_split_once_is_first(s, pat);
    let k = (split_once_spec(s, pat)->0).0.len() as int;
    assert(k == i);
}

/// `needle` stands in `hay` at byte `i`.
spec fn bytes_at(hay: Seq<u8>, needle: Seq<u8>, i: int) -> bool {
    0 <= i && i + needle.len() <= hay.len() && hay.subrange(i, i + needle.len()) == needle
}

/// The encoding of a concatenation is the concatenation of the encodings.
proof fn lemma_encode_concat(a: Seq<char>, b: Seq<char>)
    ensures
        encode_utf8(a + b) == encode_utf8(a) + encode_utf8(b),
    decreases a.len(),
{
    if a.len() == 0 {
        assert(a + b =~= b);
        assert(encode_utf8(a) + encode_utf8(b) =~= encode_utf8(b));
    } else {
        assert((a + b).drop_first() =~= a.drop_first() + b);
        lemma_encode_concat(a.drop_first(), b);
        assert(encode_utf8(a + b) =~= encode_utf8(a) + encode_utf8(b));
    }
}

/// Two texts with the same encoding are the same text.
proof fn lemma_encode_injective(a: Seq<char>, b: Seq<char>)
    requires
        encode_utf8(a) == encode_utf8(b),
    ensures
        a == b,
{
    encode_utf8_decode_utf8(a);
    encode_utf8_decode_utf8(b);
}

/// Only the empty text has an empty encoding.
proof fn lemma_encode_nonempty(a: Seq<char>)
    requires
        a.len() > 0,
    ensures
        encode_utf8(a).len() > 0,
{
}

/// A text whose encoding begins with the bytes of the ASCII text `p` begins with `p`.
proof fn lemma_ascii_prefix(t: Seq<char>, p: Seq<char>)
    requires
        is_ascii_chars(p),
        bytes_at(encode_utf8(t), encode_utf8(p), 0),
    ensures
        p.len() <= t.len(),
        t.take(p.len() as int) == p,
    decreases p.len(),
{
    if p.len() == 0 {
        assert(t.take(0) =~= p);
    } else {
        let bt = encode_utf8(t);
        let bp = encode_utf8(p);
        is_ascii_chars_encode_utf8(p);
        assert(bt[0] == bt.subrange(0, bp.len() as int)[0]);
        assert(bt[0] == bp[0] && bp[0] == p[0] as u8);
        assert(t.len() > 0);
        encode_utf8_first_scalar(t);
        let b0 = bt[0];
        assert(b0 & 0x7f == b0) by (bit_vector)
            requires
                b0 <= 0x7f,
        ;
        char_u32_cast(t[0], b0 as u32);
        char_u32_cast(p[0], b0 as u32);
        assert(t[0] == p[0]);
        let t1 = t.drop_first();
        let p1 = p.drop_first();
        assert(encode_utf8(t1) =~= bt.skip(1));
        assert(encode_utf8(p1) =~= bp.skip(1));
        assert(encode_utf8(t1).subrange(0, encode_utf8(p1).len() as int) =~= bt.subrange(
            0,
            bp.len() as int,
        ).skip(1));
        lemma_ascii_prefix(t1, p1);
        assert(t.take(p.len() as int) =~= seq![t[0]] + t1.take(p1.len() as int));
        assert(p =~= seq![p[0]] + p1);
    }
}

/// The end of the first of two encodings is a character boundary of both together.
proof fn lemma_boundary_between(a: Seq<char>, b: Seq<char>)
    ensures
        is_char_boundary(encode_utf8(a + b), encode_utf8(a).len() as int),
{
    lemma_encode_concat(a, b);
    encode_utf8_valid_utf8(a + b);
    let whole = encode_utf8(a + b);
    let n = encode_utf8(a).len() as int;
    if b.len() == 0 {
        is_char_boundary_start_end_of_seq(whole);
    } else {
        lemma_encode_nonempty(b);
        encode_utf8_first_scalar(b);
        assert(whole[n] == encode_utf8(b)[0]);
        is_char_boundary_iff_not_is_continuation_byte(whole, n);
    }
}

/// A text that stands at character `j` stands at the byte where that character begins.
proof fn lemma_occurrence_in_bytes(s: Seq<char>, pat: Seq<char>, j: int)
    requires
        occurs_at(s, pat, j),
    ensures
        bytes_at(encode_utf8(s), encode_utf8(pat), encode_utf8(s.take(j)).len() as int),
{
    let rest = s.skip(j + pat.len());
    assert(s =~= s.take(j) + (pat + rest));
    lemma_encode_concat(s.take(j), pat + rest);
    lemma_encode_concat(pat, rest);
    let at = encode_utf8(s.take(j)).len() as int;
    assert(encode_utf8(s).subrange(at, at + encode_utf8(pat).len()) =~= encode_utf8(pat));
}

/// A longer prefix has a longer encoding.
proof fn lemma_prefix_encoding_grows(s: Seq<char>, j: int, i: int)
    requires
        0 <= j < i <= s.len(),
    ensures
        encode_utf8(s.take(j)).len() < encode_utf8(s.take(i)).len(),
{
    assert(s.take(i) =~= s.take(j) + s.subrange(j, i));
    lemma_encode_concat(s.take(j), s.subrange(j, i));
    lemma_encode_nonempty(s.subrange(j, i));
}

/// The leftmost position of `needle` in `hay`.
fn find_bytes(hay: &[u8], needle: &[u8]) -> (r: Option<usize>)
    ensures
        match r {
            Some(i) => bytes_at(hay@, needle@, i as int) && forall|j: int|
                0 <= j < i ==> !bytes_at(hay@, needle@, j),
            None => forall|j: int| !bytes_at(hay@, needle@, j),
        },
{
    if needle.len() > hay.len() {
        return None;
    }
    let total: usize = hay.len();
    let last: usize = total - needle.len();
    let mut i: usize = 0;
    while i <= last
        invariant
            total == hay@.len(),
            needle@.len() <= total,
            last == total - needle@.len(),
            i <= last + 1,
            forall|j: int| 0 <= j < i ==> !bytes_at(hay@, needle@, j),
        decreases last + 1 - i,
    {
        let mut k: usize = 0;
        while k < needle.len() && hay[i + k] == needle[k]
            invariant
                total == hay@.len(),
                needle@.len() <= total,
                last == total - needle@.len(),
                i <= last,
                k <= needle@.len(),
                forall|m: int| 0 <= m < k ==> hay@[i + m] == needle@[m],
            decreases needle@.len() - k,
        {
            k = k + 1;
        }
        if k == needle.len() {
            assert(hay@.subrange(i as int, i + needle@.len()) =~= needle@);
            return Some(i);
        }
        assert(hay@.subrange(i as int, i + needle@.len())[k as int] != needle@[k as int]);
        if i == last {
            return None;
        }
        i = i + 1;
    }
    None
}

/// Cuts `s` at the leftmost `pat`: what stands before it and what stands after it.
pub(crate) fn split_once<'a>(s: &'a str, pat: &str) -> (r: Option<(&'a str, &'a str)>)
    requires
        is_ascii_chars(pat@),
        pat@.len() > 0,
    ensures
        match r {
            Some((before, after)) => split_once_spec(s@, pat@) == Some((before@, after@)),
            None => split_once_spec(s@, pat@) is None,
        },
{
    let bytes = s.as_bytes();
    let needle = pat.as_bytes();
    proof {
        is_ascii_chars_encode_utf8(pat@);
        encode_utf8_valid_utf8(s@);
    }
    match find_bytes(bytes, needle) {
        Some(at) => {
            proof {
                assert(bytes@[at as int] == bytes@.subrange(at as int, at + needle@.len())[0]);
                is_char_boundary_iff_not_is_continuation_byte(bytes@, at as int);
            }
            let (before, rest) = s.split_at(at);
            proof {
                lemma_encode_concat(before@, rest@);
                assert(encode_utf8(before@) + encode_utf8(rest@) =~= encode_utf8(s@));
                lemma_encode_injective(before@ + rest@, s@);
                assert(encode_utf8(rest@).subrange(0, needle@.len() as int) =~= bytes@.subrange(
                    at as int,
                    at + needle@.len(),
                ));
                lemma_ascii_prefix(rest@, pat@);
                assert(rest@ =~= pat@ + rest@.skip(pat@.len() as int));
                lemma_boundary_between(pat@, rest@.skip(pat@.len() as int));
            }
            let (_pat, after) = rest.split_at(needle.len());
            proof {
                let i = before@.len() as int;
                lemma_encode_concat(pat@, rest@.skip(pat@.len() as int));
                assert(encode_utf8(after@) =~= encode_utf8(rest@.skip(pat@.len() as int)));
                lemma_encode_injective(after@, rest@.skip(pat@.len() as int));
                assert(s@.subrange(i, i + pat@.len()) =~= pat@);
                assert(s@.take(i) =~= before@);
                assert(s@.skip(i + pat@.len()) =~= after@);
                assert forall|j: int| 0 <= j < i implies !occurs_at(s@, pat@, j) by {
                    if occurs_at(s@, pat@, j) {
                        lemma_occurrence_in_bytes(s@, pat@, j);
                        lemma_prefix_encoding_grows(s@, j, i);
                    }
                }
                lemma_first_is_split_once(s@, pat@, i);
            }
            Some((before, after))
        },
        None => {
            proof {
                assert forall|j: int| !occurs_at(s@, pat@, j) by {
                    if occurs_at(s@, pat@, j) {
                        lemma_occurrence_in_bytes(s@, pat@, j);
                    }
                }
            }
            None
        },
    }
}

/// `s` up to the first `pat`, or all of `s` where there is none.
pub(crate) fn take_before<'a>(s: &'a str, pat: &str) -> (r: &'a str)
    requires
        is_ascii_chars(pat@),
        pat@.len() > 0,
    ensures
        r@ == before_first(s@, pat@),
{
    match split_once(s, pat) {
        Some((before, _after)) => before,
        None => s,
    }
}

/// What stands between the first `pat` of `s` and the next one (or the end), and nothing where
/// `pat` does not occur.
pub(crate) fn take_second<'a>(s: &'a str, pat: &str) -> (r: &'a str)
    requires
        is_ascii_chars(pat@),
        pat@.len() > 0,
    ensures
        r@ == second_piece(s@, pat@),
{
    match split_once(s, pat) {
        Some((_before, after)) => take_before(after, pat),
        None => {
            proof {
                reveal_strlit("");
                assert(""@ =~= Seq::<char>::empty());
            }
            ""
        },
    }
}

/// A copy of `s` in which every `from` is replaced by `to`.
pub(crate) fn replace(s: &str, from: &str, to: &str) -> (r: String)
    requires
        is_ascii_chars(from@),
        from@.len() > 0,
    ensures
        r@ == replace_spec(s@, from@, to@),
{
    let mut out = String::new();
    let mut rest: &str = s;
    assert(out@ + replace_spec(rest@, from@, to@) =~= replace_spec(s@, from@, to@));
    loop
        invariant
            is_ascii_chars(from@),
            from@.len() > 0,
            out@ + replace_spec(rest@, from@, to@) == replace_spec(s@, from@, to@),
        decreases rest@.len(),
    {
        match split_once(rest, from) {
            Some((before, after)) => {
                proof {
                    lemma_split_once_is_first(rest@, from@);
                    assert(out@ + (before@ + to@ + replace_spec(after@, from@, to@)) =~= (out@
                        + before@ + to@) + replace_spec(after@, from@, to@));
                }
                out.append(before);
                out.append(to);
                rest = after;
            },
            None => {
                out.append(rest);
                return out;
            },
        }
    }
}

/// Whether `s` begins with `prefix`.
pub(crate) fn starts_with(s: &str, prefix: &str) -> (r: bool)
    requires
        is_ascii_chars(prefix@),
    ensures
        r == prefix@.is_prefix_of(s@),
{
    let bytes = s.as_bytes();
    let head = prefix.as_bytes();
    proof {
        if prefix@.is_prefix_of(s@) {
            assert(s@ =~= prefix@ + s@.skip(prefix@.len() as int));
            lemma_encode_concat(prefix@, s@.skip(prefix@.len() as int));
        }
    }
    if head.len() > bytes.len() {
        return false;
    }
    let mut i: usize = 0;
    while i < head.len()
        invariant
            i <= head@.len() <= bytes@.len(),
            bytes@ == encode_utf8(s@),
            head@ == encode_utf8(prefix@),
            prefix@.is_prefix_of(s@) ==> forall|k: int|
                0 <= k < head@.len() ==> bytes@[k] == head@[k],
            forall|k: int| 0 <= k < i ==> bytes@[k] == head@[k],
        decreases head@.len() - i,
    {
        if bytes[i] != head[i] {
            return false;
        }
        i = i + 1;
    }
    proof {
        assert(bytes@.subrange(0, head@.len() as int) =~= head@);
        lemma_ascii_prefix(s@, prefix@);
        assert(prefix@ =~= s@.subrange(0, prefix@.len() as int));
    }
    true
}

/// Whether two texts are the same.
pub(crate) fn same_text(a: &str, b: &str) -> (r: bool)
    ensures
        r == (a@ == b@),
{
    let x = a.as_bytes();
    let y = b.as_bytes();
    if x.len() != y.len() {
        return false;
    }
    let mut i: usize = 0;
    while i < x.len()
        invariant
            i <= x@.len() == y@.len(),
            x@ == encode_utf8(a@),
            y@ == encode_utf8(b@),
            forall|k: int| 0 <= k < i ==> x@[k] == y@[k],
        decreases x@.len() - i,
    {
        if x[i] != y[i] {
            return false;
        }
        i = i + 1;
    }
    proof {
        assert(x@ =~= y@);
        lemma_encode_injective(a@, b@);
    }
    true
}

/// What stands before the first `pat` does not hold `pat`.
pub proof fn lemma_before_first_is_clean(s: Seq<char>, pat: Seq<char>)
    requires
        pat.len() > 0,
    ensures
        !occurs(before_first(s, pat), pat),
{
    let head = before_first(s, pat);
    if occurs(s, pat) {
        lemma_split_once_is_first(s, pat);
        assert forall|j: int| !occurs_at(head, pat, j) by {
            if occurs_at(head, pat, j) {
                assert(s.subrange(j, j + pat.len()) =~= head.subrange(j, j + pat.len()));
                assert(occurs_at(s, pat, j));
            }
        }
    }
}

/// A value that does not hold the one-character `mark` is what stands before the first `mark` of
/// any text that continues it with `mark`.
pub proof fn lemma_value_before_mark(value: Seq<char>, mark: Seq<char>, tail: Seq<char>)
    requires
        mark.len() == 1,
        !occurs(value, mark),
    ensures
        before_first(value + mark + tail, mark) == value,
{
    let s = value + mark + tail;
    let n = value.len() as int;
    assert(s.subrange(n, n + 1) =~= mark);
    assert forall|j: int| 0 <= j < n implies !occurs_at(s, mark, j) by {
        assert(value.subrange(j, j + 1) =~= s.subrange(j, j + 1));
        assert(!occurs_at(value, mark, j));
    }
    lemma_first_is_split_once(s, mark, n);
    assert(s.take(n) =~= value);
}

/// A value between the first `pat` of a text and the one-character `mark` is read back from the
/// second piece of that text, as long as no other `pat` begins inside the value.
pub proof fn lemma_value_in_second_piece(
    head: Seq<char>,
    pat: Seq<char>,
    value: Seq<char>,
    mark: Seq<char>,
    tail: Seq<char>,
)
    requires
        pat.len() > 0,
        mark.len() == 1,
        !occurs(value, mark),
        first_at(head + pat + value + mark + tail, pat, head.len() as int),
        forall|j: int| 0 <= j < value.len() ==> !occurs_at(value + mark + tail, pat, j),
    ensures
        before_first(second_piece(head + pat + value + mark + tail, pat), mark) == value,
{
    let text = head + pat + value + mark + tail;
    let after = value + mark + tail;
    let n = value.len() as int;
    lemma_first_is_split_once(text, pat, head.len() as int);
    assert(text.skip((head.len() + pat.len()) as int) =~= after);
    let piece = before_first(after, pat);
    if occurs(after, pat) {
        lemma_split_once_is_first(after, pat);
    } else {
        assert(after =~= after.take(after.len() as int));
    }
    let k = piece.len() as int;
    assert(piece == after.take(k) && k >= n);
    if k == n {
        assert(piece =~= value);
    } else {
        assert(piece =~= value + mark + after.subrange(n + 1, k));
        lemma_value_before_mark(value, mark, after.subrange(n + 1, k));
    }
}

/// Replacing a pattern by a text that shares no character with it leaves none of the pattern.
pub proof fn lemma_replace_leaves_none(s: Seq<char>, from: Seq<char>, to: Seq<char>)
    requires
        from.len() > 0,
        to.len() > 0,
        forall|i: int, j: int| 0 <= i < from.len() && 0 <= j < to.len() ==> from[i] != to[j],
    ensures
        !occurs(replace_spec(s, from, to), from),
    decreases s.len(),
{
    if occurs(s, from) {
        lemma_split_once_is_first(s, from);
        let (before, after) = split_once_spec(s, from)->0;
        lemma_replace_leaves_none(after, from, to);
        let tail = replace_spec(after, from, to);
        let whole = before + to + tail;
        let b = before.len() as int;
        let t = to.len() as int;
        let n = from.len() as int;
        assert forall|i: int| !occurs_at(whole, from, i) by {
            if occurs_at(whole, from, i) {
                if i + n <= b {
                    assert(s.subrange(i, i + n) =~= whole.subrange(i, i + n));
                    assert(occurs_at(s, from, i));
                } else if i >= b + t {
                    assert(tail.subrange(i - b - t, i - b - t + n) =~= whole.subrange(i, i + n));
                    assert(occurs_at(tail, from, i - b - t));
                } else {
                    let k = if i < b { b } else { i };
                    assert(whole.subrange(i, i + n)[k - i] == to[k - b]);
                }
            }
        }
    }
}

/// Replacing a pattern by a text of as many bytes keeps the number of bytes.
pub proof fn lemma_replace_keeps_size(s: Seq<char>, from: Seq<char>, to: Seq<char>)
    requires
        encode_utf8(from).len() == encode_utf8(to).len(),
    ensures
        encode_utf8(replace_spec(s, from, to)).len() == encode_utf8(s).len(),
    decreases s.len(),
{
    if from.len() > 0 && occurs(s, from) {
        lemma_split_once_is_first(s, from);
        let (before, after) = split_once_spec(s, from)->0;
        lemma_replace_keeps_size(after, from, to);
        assert(s =~= before + from + after);
        lemma_encode_concat(before + from, after);
        lemma_encode_concat(before, from);
        lemma_encode_concat(before + to, replace_spec(after, from, to));
        lemma_encode_concat(before, to);
    }
}

/// A pattern stands in a text where the rest of the text begins with it.
pub proof fn lemma_stands_at(s: Seq<char>, pat: Seq<char>, i: int)
    requires
        0 <= i <= s.len(),
    ensures
        occurs_at(s, pat, i) <==> pat.is_prefix_of(s.skip(i)),
{
    if i + pat.len() <= s.len() {
        assert(s.skip(i).subrange(0, pat.len() as int) =~= s.subrange(i, i + pat.len()));
    }
}

/// A pattern with which no rest of the text begins does not occur in it.
pub proof fn lemma_stands_nowhere(s: Seq<char>, pat: Seq<char>)
    requires
        forall|j: int| 0 <= j <= s.len() ==> !pat.is_prefix_of(#[trigger] s.skip(j)),
    ensures
        !occurs(s, pat),
{
    assert forall|j: int| !occurs_at(s, pat, j) by {
        if 0 <= j <= s.len() {
            lemma_stands_at(s, pat, j);
            assert(!pat.is_prefix_of(s.skip(j)));
        }
    }
}

/// The first place where a pattern stands is its leftmost occurrence.
pub proof fn lemma_stands_first(s: Seq<char>, pat: Seq<char>, i: int)
    requires
        0 <= i <= s.len(),
        pat.is_prefix_of(s.skip(i)),
        forall|j: int| 0 <= j < i ==> !pat.is_prefix_of(#[trigger] s.skip(j)),
    ensures
        first_at(s, pat, i),
        i + pat.len() <= s.len(),
{
    lemma_stands_at(s, pat, i);
    assert forall|j: int| 0 <= j < i implies !occurs_at(s, pat, j) by {
        lemma_stands_at(s, pat, j);
        assert(!pat.is_prefix_of(s.skip(j)));
    }
}

/// What stands before a mark of one character runs up to the mark, or to the end.
pub proof fn lemma_before_first_ends(s: Seq<char>, mark: Seq<char>)
    requires
        mark.len() == 1,
    ensures
        ({
            let t = before_first(s, mark);
            &&& t.len() <= s.len()
            &&& t == s.take(t.len() as int)
            &&& !t.contains(mark[0])
            &&& t.len() == s.len() || s[t.len() as int] == mark[0]
        }),
{
    let t = before_first(s, mark);
    lemma_before_first_is_clean(s, mark);
    if occurs(s, mark) {
        lemma_split_once_is_first(s, mark);
        let k = t.len() as int;
        assert(s.subrange(k, k + 1)[0] == mark[0]);
    } else {
        assert(t =~= s.take(t.len() as int));
    }
    if t.contains(mark[0]) {
        let k = choose|k: int| 0 <= k < t.len() && t[k] == mark[0];
        assert(t.subrange(k, k + 1) =~= mark);
        assert(occurs_at(t, mark, k));
    }
}

/// The value behind the leftmost marker runs up to the mark, to the next marker, or to the end.
pub proof fn lemma_value_behind_marker(s: Seq<char>, pat: Seq<char>, i: int, mark: Seq<char>)
    requires
        first_at(s, pat, i),
        pat.len() > 0,
        mark.len() == 1,
    ensures
        ({
            let t = before_first(second_piece(s, pat), mark);
            let start = i + pat.len();
            let end = start + t.len();
            &&& end <= s.len()
            &&& t == s.subrange(start, end)
            &&& !t.contains(mark[0])
            &&& forall|j: int| start <= j < end ==> !pat.is_prefix_of(#[trigger] s.skip(j))
            &&& end == s.len() || s[end] == mark[0] || pat.is_prefix_of(s.skip(end))
        }),
{
    let start = i + pat.len();
    let after = s.skip(start);
    lemma_first_is_split_once(s, pat, i);
    let piece = split_spec(after, pat)[0];
    assert(split_spec(s, pat) =~= seq![s.take(i)] + split_spec(after, pat));
    assert(split_spec(after, pat).len() > 0);
    assert(second_piece(s, pat) == piece);
    lemma_before_first_ends(piece, mark);
    let t = before_first(piece, mark);
    let end = start + t.len();
    if occurs(after, pat) {
        lemma_split_once_is_first(after, pat);
    }
    assert(piece.len() <= after.len() && piece =~= after.take(piece.len() as int));
    assert(t =~= s.subrange(start, end));
    assert forall|j: int| start <= j < end implies !pat.is_prefix_of(#[trigger] s.skip(j)) by {
        assert(s.skip(j) =~= after.skip(j - start));
        lemma_stands_at(after, pat, j - start);
        if pat.is_prefix_of(s.skip(j)) {
            assert(occurs_at(after, pat, j - start));
        }
    }
    if t.len() < piece.len() {
        assert(s[end] == piece[t.len() as int]);
    } else if occurs(after, pat) {
        lemma_stands_at(after, pat, piece.len() as int);
        assert(s.skip(end) =~= after.skip(piece.len() as int));
    }
}

/// Replacing a pattern by a text of the same length changes the places where the pattern stands,
/// and no others. The pattern must not overlap itself: its first character occurs in it only once.
pub proof fn lemma_replace_in_place(s: Seq<char>, from: Seq<char>, to: Seq<char>)
    requires
        from.len() > 0,
        from.len() == to.len(),
        forall|k: int| 0 < k < from.len() ==> #[trigger] from[k] != from[0],
    ensures
        replace_spec(s, from, to).len() == s.len(),
        forall|p: int, k: int|
            #![trigger s.skip(p), to[k]]
            0 <= p <= s.len() && from.is_prefix_of(s.skip(p)) && 0 <= k < to.len()
                ==> replace_spec(s, from, to)[p + k] == to[k],
        forall|i: int|
            0 <= i < s.len() && (forall|p: int|
                0 <= p <= i < p + from.len() ==> !from.is_prefix_of(#[trigger] s.skip(p)))
                ==> #[trigger] replace_spec(s, from, to)[i] == s[i],
    decreases s.len(),
{
    let r = replace_spec(s, from, to);
    let n = from.len() as int;
    if occurs(s, from) {
        lemma_split_once_is_first(s, from);
        let (before, after) = split_once_spec(s, from)->0;
        let b = before.len() as int;
        lemma_replace_in_place(after, from, to);
        let tail = replace_spec(after, from, to);
        assert(r =~= before + to + tail);
        assert forall|p: int, k: int|
            #![trigger s.skip(p), to[k]]
            0 <= p <= s.len() && from.is_prefix_of(s.skip(p)) && 0 <= k < to.len() implies r[p + k]
            == to[k] by {
            lemma_stands_at(s, from, p);
            if p < b {
                assert(!occurs_at(s, from, p));
            } else if p < b + n {
                assert(s.subrange(p, p + n)[0] == from[0]);
                assert(s.subrange(b, b + n)[p - b] == from[p - b]);
            } else {
                assert(s.skip(p) =~= after.skip(p - b - n));
                assert(tail[p - b - n + k] == to[k]);
            }
        }
        assert forall|i: int|
            0 <= i < s.len() && (forall|p: int|
                0 <= p <= i < p + n ==> !from.is_prefix_of(#[trigger] s.skip(p))) implies #[trigger] r[i]
            == s[i] by {
            if b <= i < b + n {
                lemma_stands_at(s, from, b);
                assert(!from.is_prefix_of(s.skip(b)));
            } else if i >= b + n {
                let q = i - b - n;
                assert forall|p: int| 0 <= p <= q < p + n implies !from.is_prefix_of(
                    #[trigger] after.skip(p),
                ) by {
                    assert(s.skip(p + b + n) =~= after.skip(p));
                    assert(!from.is_prefix_of(s.skip(p + b + n)));
                }
                assert(tail[q] == after[q]);
            }
        }
    } else {
        assert forall|p: int| 0 <= p <= s.len() implies !from.is_prefix_of(#[trigger] s.skip(p)) by {
            lemma_stands_at(s, from, p);
        }
    }
}

} // verus!
