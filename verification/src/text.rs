//! Byte-level text fundamentals: whitespace, line splitting and joining,
//! substring search, equality and copying.
//!
//! A trust file is a sequence of bytes holding lines separated by `\n`,
//! where a `\r` directly before the `\n` belongs to the separator.
//!
//! Whitespace is deliberately the six ASCII whitespace bytes: the
//! multi-byte UTF-8 encodings of other Unicode whitespace count as
//! ordinary text, so their bytes never split a field or blank a line.

use vstd::prelude::*;

verus! {

/// ASCII whitespace: space, tab, line feed, vertical tab, form feed,
/// carriage return.
pub open spec fn is_space(b: u8) -> bool {
    b == 32 || b == 9 || b == 10 || b == 11 || b == 12 || b == 13
}

/// Every byte of `s` is whitespace (an empty `s` counts).
pub open spec fn all_space(s: Seq<u8>) -> bool {
    forall|i: int| 0 <= i < s.len() ==> is_space(s[i])
}

/// The views of a sequence of byte vectors.
pub open spec fn views_of(lines: Seq<Vec<u8>>) -> Seq<Seq<u8>> {
    lines.map_values(|l: Vec<u8>| l@)
}

pub proof fn lemma_views_of_push(lines: Seq<Vec<u8>>, l: Vec<u8>)
    ensures
        views_of(lines.push(l)) == views_of(lines).push(l@),
{
    assert(views_of(lines.push(l)) =~= views_of(lines).push(l@));
}

pub fn is_space_byte(b: u8) -> (r: bool)
    ensures
        r == is_space(b),
{
    b == 32 || b == 9 || b == 10 || b == 11 || b == 12 || b == 13
}

/// Whether the whole text is whitespace, as trimming it and testing for
/// emptiness would report.
pub fn is_all_whitespace(contents: &Vec<u8>) -> (r: bool)
    ensures
        r == all_space(contents@),
{
    let mut i: usize = 0;
    while i < contents.len()
        invariant
            0 <= i <= contents@.len(),
            forall|j: int| 0 <= j < i ==> is_space(contents@[j]),
        decreases contents@.len() - i,
    {
        if !is_space_byte(contents[i]) {
            return false;
        }
        i = i + 1;
    }
    true
}

/// A verified copy of a byte vector.
pub fn copy_bytes(src: &Vec<u8>) -> (r: Vec<u8>)
    ensures
        r@ == src@,
{
    let mut r: Vec<u8> = Vec::new();
    let mut i: usize = 0;
    while i < src.len()
        invariant
            0 <= i <= src@.len(),
            r@ == src@.subrange(0, i as int),
        decreases src@.len() - i,
    {
        r.push(src[i]);
        i = i + 1;
        proof {
            assert(r@ =~= src@.subrange(0, i as int));
        }
    }
    proof {
        assert(src@.subrange(0, src@.len() as int) =~= src@);
    }
    r
}

/// A verified equality test on byte vectors.
pub fn bytes_eq(a: &Vec<u8>, b: &Vec<u8>) -> (r: bool)
    ensures
        r == (a@ == b@),
{
    if a.len() != b.len() {
        return false;
    }
    let mut i: usize = 0;
    while i < a.len()
        invariant
            a@.len() == b@.len(),
            0 <= i <= a@.len(),
            forall|j: int| 0 <= j < i ==> a@[j] == b@[j],
        decreases a@.len() - i,
    {
        if a[i] != b[i] {
            return false;
        }
        i = i + 1;
    }
    proof {
        assert(a@ =~= b@);
    }
    true
}

/// `t` occurs in `h` as a contiguous subsequence (an empty `t` always does).
pub open spec fn contains_seq(h: Seq<u8>, t: Seq<u8>) -> bool {
    exists|k: int| 0 <= k && k + t.len() <= h.len() && #[trigger] h.subrange(k, k + t.len() as int) == t
}

fn match_at(h: &Vec<u8>, t: &Vec<u8>, k: usize) -> (r: bool)
    requires
        k + t@.len() <= h@.len(),
    ensures
        r == (h@.subrange(k as int, k as int + t@.len() as int) == t@),
{
    let hn = h.len();
    let mut j: usize = 0;
    while j < t.len()
        invariant
            k + t@.len() <= h@.len(),
            hn == h@.len(),
            0 <= j <= t@.len(),
            forall|m: int| 0 <= m < j ==> h@[k + m] == t@[m],
        decreases t@.len() - j,
    {
        if h[k + j] != t[j] {
            proof {
                assert(h@.subrange(k as int, k as int + t@.len() as int)[j as int] != t@[j as int]);
            }
            return false;
        }
        j = j + 1;
    }
    proof {
        assert(h@.subrange(k as int, k as int + t@.len() as int) =~= t@);
    }
    true
}

/// Whether `t` occurs in `h` as a contiguous run of bytes.
pub fn contains_bytes(h: &Vec<u8>, t: &Vec<u8>) -> (r: bool)
    ensures
        r == contains_seq(h@, t@),
{
    if t.len() > h.len() {
        return false;
    }
    if t.len() == 0 {
        proof {
            assert(h@.subrange(0, 0 + t@.len() as int) =~= t@);
        }
        return true;
    }
    let last_start: usize = h.len() - t.len();
    let mut k: usize = 0;
    while k <= last_start
        invariant
            1 <= t@.len() <= h@.len(),
            h@.len() <= usize::MAX,
            last_start == h@.len() - t@.len(),
            0 <= k <= last_start + 1,
            forall|m: int| 0 <= m < k ==> #[trigger] h@.subrange(m, m + t@.len() as int) != t@,
        decreases last_start + 1 - k,
    {
        if match_at(h, t, k) {
            return true;
        }
        k = k + 1;
    }
    false
}

/// A single trailing carriage return taken off a line, as the `\r\n`
/// separator form requires.
pub open spec fn strip_cr(l: Seq<u8>) -> Seq<u8> {
    if l.len() > 0 && l.last() == 13 {
        l.drop_last()
    } else {
        l
    }
}

/// The lines of `s` with `cur` as the line begun so far: lines end at each
/// `\n` (a `\r` directly before it is dropped); a last line without a
/// terminator is kept as it stands, and a terminator on the last line adds
/// no empty line after it.
pub open spec fn lines_from(s: Seq<u8>, cur: Seq<u8>) -> Seq<Seq<u8>>
    decreases s.len(),
{
    if s.len() == 0 {
        if cur.len() == 0 {
            Seq::empty()
        } else {
            seq![cur]
        }
    } else if s[0] == 10 {
        seq![strip_cr(cur)] + lines_from(s.drop_first(), Seq::empty())
    } else {
        lines_from(s.drop_first(), cur.push(s[0]))
    }
}

/// The lines of a byte text.
pub open spec fn spec_lines(s: Seq<u8>) -> Seq<Seq<u8>> {
    lines_from(s, Seq::empty())
}

/// The text split into its lines.
pub fn split_lines(contents: &Vec<u8>) -> (lines: Vec<Vec<u8>>)
    ensures
        views_of(lines@) == spec_lines(contents@),
{
    let n = contents.len();
    let mut lines: Vec<Vec<u8>> = Vec::new();
    let mut cur: Vec<u8> = Vec::new();
    let mut i: usize = 0;
    proof {
        assert(contents@.subrange(0, n as int) =~= contents@);
        assert(views_of(lines@) + lines_from(contents@, cur@) =~= lines_from(contents@, cur@));
    }
    while i < n
        invariant
            0 <= i <= n,
            n == contents@.len(),
            views_of(lines@) + lines_from(contents@.subrange(i as int, n as int), cur@)
                == spec_lines(contents@),
        decreases n - i,
    {
        let b = contents[i];
        proof {
            assert(contents@.subrange(i as int, n as int).drop_first()
                =~= contents@.subrange(i as int + 1, n as int));
        }
        if b == 10 {
            let ghost old_lines = lines@;
            let ghost old_cur = cur@;
            if cur.len() > 0 && cur[cur.len() - 1] == 13 {
                cur.pop();
            }
            proof {
                assert(cur@ == strip_cr(old_cur));
            }
            lines.push(cur);
            cur = Vec::new();
            proof {
                lemma_views_of_push(old_lines, lines@[lines@.len() - 1]);
                assert(views_of(old_lines).push(strip_cr(old_cur))
                    + lines_from(contents@.subrange(i as int + 1, n as int), Seq::empty())
                    =~= views_of(old_lines)
                    + lines_from(contents@.subrange(i as int, n as int), old_cur));
            }
        } else {
            cur.push(b);
        }
        i = i + 1;
    }
    proof {
        assert(contents@.subrange(n as int, n as int) =~= Seq::<u8>::empty());
    }
    if cur.len() > 0 {
        let ghost old_lines = lines@;
        lines.push(cur);
        proof {
            lemma_views_of_push(old_lines, lines@[lines@.len() - 1]);
        }
    }
    proof {
        assert(views_of(lines@) =~= spec_lines(contents@));
    }
    lines
}

/// The lines joined back into one text, each line followed by `\n`.
pub open spec fn join_lines_spec(lines: Seq<Seq<u8>>) -> Seq<u8>
    decreases lines.len(),
{
    if lines.len() == 0 {
        Seq::empty()
    } else {
        join_lines_spec(lines.drop_last()) + lines.last() + seq![10u8]
    }
}

/// The lines written out one after the other, each with a terminating `\n`.
pub fn join_lines(lines: &Vec<Vec<u8>>) -> (out: Vec<u8>)
    ensures
        out@ == join_lines_spec(views_of(lines@)),
{
    let mut out: Vec<u8> = Vec::new();
    let mut i: usize = 0;
    proof {
        assert(views_of(lines@).subrange(0, 0) =~= Seq::<Seq<u8>>::empty());
    }
    while i < lines.len()
        invariant
            0 <= i <= lines@.len(),
            out@ == join_lines_spec(views_of(lines@).subrange(0, i as int)),
        decreases lines@.len() - i,
    {
        let ghost prefix = views_of(lines@).subrange(0, i as int);
        let mut j: usize = 0;
        while j < lines[i].len()
            invariant
                0 <= i < lines@.len(),
                0 <= j <= lines@[i as int]@.len(),
                out@ == join_lines_spec(prefix) + lines@[i as int]@.subrange(0, j as int),
                prefix == views_of(lines@).subrange(0, i as int),
            decreases lines@[i as int]@.len() - j,
        {
            out.push(lines[i][j]);
            j = j + 1;
            proof {
                assert(join_lines_spec(prefix) + lines@[i as int]@.subrange(0, j - 1)
                    + seq![lines@[i as int]@[j - 1]]
                    =~= join_lines_spec(prefix) + lines@[i as int]@.subrange(0, j as int));
            }
        }
        out.push(10);
        i = i + 1;
        proof {
            let next = views_of(lines@).subrange(0, i as int);
            assert(next.drop_last() =~= prefix);
            assert(lines@[i - 1]@.subrange(0, lines@[i - 1]@.len() as int) =~= lines@[i - 1]@);
            assert(out@ =~= join_lines_spec(next));
        }
    }
    proof {
        assert(views_of(lines@).subrange(0, lines@.len() as int) =~= views_of(lines@));
    }
    out
}

} // verus!
