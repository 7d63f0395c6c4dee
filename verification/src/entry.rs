//! Classification of the lines of a trust file, and the host field of an
//! entry line.
//!
//! A line is blank when it holds only whitespace, a comment when its first
//! non-whitespace byte is `#`, and an entry otherwise. The host field of a
//! line is its first whitespace-delimited token.

use vstd::prelude::*;
use crate::text::is_space;
use crate::text::is_space_byte;

verus! {

/// The line with its leading whitespace taken off.
pub open spec fn trim_start(s: Seq<u8>) -> Seq<u8>
    decreases s.len(),
{
    if s.len() > 0 && is_space(s[0]) {
        trim_start(s.drop_first())
    } else {
        s
    }
}

/// The longest whitespace-free prefix of `s`.
pub open spec fn leading_token(s: Seq<u8>) -> Seq<u8>
    decreases s.len(),
{
    if s.len() == 0 || is_space(s[0]) {
        Seq::empty()
    } else {
        seq![s[0]] + leading_token(s.drop_first())
    }
}

/// The line holds only whitespace.
pub open spec fn is_blank(line: Seq<u8>) -> bool {
    trim_start(line).len() == 0
}

/// The first non-whitespace byte of the line is `#`.
pub open spec fn is_comment(line: Seq<u8>) -> bool {
    !is_blank(line) && trim_start(line)[0] == 35
}

/// The line records a host: it is neither blank nor a comment.
pub open spec fn is_entry(line: Seq<u8>) -> bool {
    !is_blank(line) && !is_comment(line)
}

/// The host field: the first whitespace-delimited token of the line
/// (empty on a blank line).
pub open spec fn host_field(line: Seq<u8>) -> Seq<u8> {
    leading_token(trim_start(line))
}

/// Skipping a whitespace prefix does not change what trimming leaves.
proof fn lemma_trim_start_skip(s: Seq<u8>, k: int)
    requires
        0 <= k <= s.len(),
        forall|j: int| 0 <= j < k ==> is_space(s[j]),
    ensures
        trim_start(s) == trim_start(s.subrange(k, s.len() as int)),
    decreases k,
{
    if k == 0 {
        assert(s.subrange(0, s.len() as int) =~= s);
    } else {
        assert(s.drop_first() =~= s.subrange(1, s.len() as int));
        lemma_trim_start_skip(s.drop_first(), k - 1);
        assert(s.drop_first().subrange(k - 1, s.drop_first().len() as int)
            =~= s.subrange(k, s.len() as int));
    }
}

/// Trimming leaves exactly the tail from the first non-whitespace byte.
proof fn lemma_trim_start_at(s: Seq<u8>, k: int)
    requires
        0 <= k <= s.len(),
        forall|j: int| 0 <= j < k ==> is_space(s[j]),
        k == s.len() || !is_space(s[k]),
    ensures
        trim_start(s) == s.subrange(k, s.len() as int),
{
    lemma_trim_start_skip(s, k);
}

/// The leading token is exactly the prefix up to the first whitespace byte.
proof fn lemma_leading_token_at(s: Seq<u8>, e: int)
    requires
        0 <= e <= s.len(),
        forall|j: int| 0 <= j < e ==> !is_space(s[j]),
        e == s.len() || is_space(s[e]),
    ensures
        leading_token(s) == s.subrange(0, e),
    decreases e,
{
    if e == 0 {
        assert(s.subrange(0, 0) =~= Seq::<u8>::empty());
    } else {
        assert(s.drop_first() =~= s.subrange(1, s.len() as int));
        lemma_leading_token_at(s.drop_first(), e - 1);
        assert(s.drop_first().subrange(0, e - 1) =~= s.subrange(1, e));
        assert(seq![s[0]] + s.subrange(1, e) =~= s.subrange(0, e));
    }
}

/// The index of the first non-whitespace byte, or the length when the line
/// is blank.
fn first_mark(line: &Vec<u8>) -> (k: usize)
    ensures
        0 <= k <= line@.len(),
        forall|j: int| 0 <= j < k ==> is_space(line@[j]),
        k == line@.len() || !is_space(line@[k as int]),
        trim_start(line@) == line@.subrange(k as int, line@.len() as int),
{
    let mut k: usize = 0;
    while k < line.len() && is_space_byte(line[k])
        invariant
            0 <= k <= line@.len(),
            forall|j: int| 0 <= j < k ==> is_space(line@[j]),
        decreases line@.len() - k,
    {
        k = k + 1;
    }
    proof {
        lemma_trim_start_at(line@, k as int);
    }
    k
}

/// Whether the line is an entry line.
pub fn is_entry_line(line: &Vec<u8>) -> (r: bool)
    ensures
        r == is_entry(line@),
{
    let k = first_mark(line);
    if k == line.len() {
        false
    } else {
        line[k] != 35
    }
}

/// The host field of the line as bytes of its own.
pub fn host_field_of(line: &Vec<u8>) -> (field: Vec<u8>)
    ensures
        field@ == host_field(line@),
{
    let k = first_mark(line);
    let ghost rest = line@.subrange(k as int, line@.len() as int);
    let mut e: usize = k;
    while e < line.len() && !is_space_byte(line[e])
        invariant
            0 <= k <= e <= line@.len(),
            forall|j: int| k <= j < e ==> !is_space(line@[j]),
        decreases line@.len() - e,
    {
        e = e + 1;
    }
    proof {
        assert(forall|j: int| 0 <= j < e - k ==> rest[j] == line@[k + j] && !is_space(rest[j]));
        lemma_leading_token_at(rest, e - k);
        assert(rest.subrange(0, e - k) =~= line@.subrange(k as int, e as int));
    }
    let mut field: Vec<u8> = Vec::new();
    let mut i: usize = k;
    while i < e
        invariant
            0 <= k <= i <= e <= line@.len(),
            field@ == line@.subrange(k as int, i as int),
        decreases e - i,
    {
        field.push(line[i]);
        i = i + 1;
        proof {
            assert(field@ =~= line@.subrange(k as int, i as int));
        }
    }
    proof {
        assert(field@ =~= line@.subrange(k as int, e as int));
    }
    field
}

} // verus!
