//! Matching a target identifier against the host field of an entry line.
//!
//! A host field may hold several comma-separated sub-tokens, each a plain
//! host or a bracketed `[host]:port` form. A sub-token matches the target
//! when its clean host (bracket and port decoration taken off) equals the
//! target exactly, or when the raw sub-token contains the target as a
//! substring. The substring fallback is deliberately loose: a target `1.1`
//! also matches a host `11.1.1.1`.

use vstd::prelude::*;
use crate::entry::host_field;
use crate::entry::is_entry;
use crate::entry::host_field_of;
use crate::entry::is_entry_line;
use crate::text::contains_seq;
use crate::text::contains_bytes;
use crate::text::bytes_eq;
use crate::text::views_of;
use crate::text::lemma_views_of_push;

verus! {

/// The sub-token with a single leading `[` taken off.
pub open spec fn strip_bracket(h: Seq<u8>) -> Seq<u8> {
    if h.len() > 0 && h[0] == 91 {
        h.drop_first()
    } else {
        h
    }
}

/// The prefix of `h` up to (not including) its first `]`.
pub open spec fn until_rbracket(h: Seq<u8>) -> Seq<u8>
    decreases h.len(),
{
    if h.len() == 0 || h[0] == 93 {
        Seq::empty()
    } else {
        seq![h[0]] + until_rbracket(h.drop_first())
    }
}

/// The clean host of a sub-token: one leading bracket taken off, then cut
/// at the first closing bracket, so that `[host]:port` yields `host`.
pub open spec fn clean_host(h: Seq<u8>) -> Seq<u8> {
    until_rbracket(strip_bracket(h))
}

/// A sub-token matches: its clean host equals the target, or the raw
/// sub-token contains the target as a substring.
pub open spec fn subtoken_matches(h: Seq<u8>, target: Seq<u8>) -> bool {
    clean_host(h) == target || contains_seq(h, target)
}

/// The comma-separated pieces of `s`, with `cur` the piece begun so far.
pub open spec fn commas_from(s: Seq<u8>, cur: Seq<u8>) -> Seq<Seq<u8>>
    decreases s.len(),
{
    if s.len() == 0 {
        seq![cur]
    } else if s[0] == 44 {
        seq![cur] + commas_from(s.drop_first(), Seq::empty())
    } else {
        commas_from(s.drop_first(), cur.push(s[0]))
    }
}

/// The comma-separated sub-tokens of a host field (an empty field yields
/// one empty sub-token).
pub open spec fn split_commas(s: Seq<u8>) -> Seq<Seq<u8>> {
    commas_from(s, Seq::empty())
}

/// Some comma-separated sub-token of the host field matches the target.
pub open spec fn host_matches(field: Seq<u8>, target: Seq<u8>) -> bool {
    exists|i: int|
        0 <= i < split_commas(field).len() && subtoken_matches(
            #[trigger] split_commas(field)[i],
            target,
        )
}

/// The line is an entry line whose host field matches the target.
pub open spec fn line_matches(line: Seq<u8>, target: Seq<u8>) -> bool {
    is_entry(line) && host_matches(host_field(line), target)
}

/// The cut at the first `]` is exactly the prefix before it.
proof fn lemma_until_rbracket_at(h: Seq<u8>, e: int)
    requires
        0 <= e <= h.len(),
        forall|j: int| 0 <= j < e ==> h[j] != 93,
        e == h.len() || h[e] == 93,
    ensures
        until_rbracket(h) == h.subrange(0, e),
    decreases e,
{
    if e == 0 {
        assert(h.subrange(0, 0) =~= Seq::<u8>::empty());
    } else {
        assert(h.drop_first() =~= h.subrange(1, h.len() as int));
        lemma_until_rbracket_at(h.drop_first(), e - 1);
        assert(h.drop_first().subrange(0, e - 1) =~= h.subrange(1, e));
        assert(seq![h[0]] + h.subrange(1, e) =~= h.subrange(0, e));
    }
}

/// The clean host of a sub-token as bytes of its own.
pub fn clean_host_of(h: &Vec<u8>) -> (r: Vec<u8>)
    ensures
        r@ == clean_host(h@),
{
    let k: usize = if h.len() > 0 && h[0] == 91 {
        1
    } else {
        0
    };
    let ghost rest = h@.subrange(k as int, h@.len() as int);
    proof {
        if k == 1 {
            assert(h@.drop_first() =~= h@.subrange(1, h@.len() as int));
        } else {
            assert(h@.subrange(0, h@.len() as int) =~= h@);
        }
        assert(strip_bracket(h@) == rest);
    }
    let mut e: usize = k;
    while e < h.len() && h[e] != 93
        invariant
            0 <= k <= e <= h@.len(),
            forall|j: int| k <= j < e ==> h@[j] != 93,
        decreases h@.len() - e,
    {
        e = e + 1;
    }
    proof {
        assert(forall|j: int| 0 <= j < e - k ==> rest[j] == h@[k + j] && rest[j] != 93);
        lemma_until_rbracket_at(rest, e - k);
        assert(rest.subrange(0, e - k) =~= h@.subrange(k as int, e as int));
    }
    let mut r: Vec<u8> = Vec::new();
    let mut i: usize = k;
    while i < e
        invariant
            0 <= k <= i <= e <= h@.len(),
            r@ == h@.subrange(k as int, i as int),
        decreases e - i,
    {
        r.push(h[i]);
        i = i + 1;
        proof {
            assert(r@ =~= h@.subrange(k as int, i as int));
        }
    }
    proof {
        assert(r@ =~= h@.subrange(k as int, e as int));
    }
    r
}

/// The host field split at its commas, each sub-token as bytes of its own.
pub fn split_host_field(field: &Vec<u8>) -> (subs: Vec<Vec<u8>>)
    ensures
        views_of(subs@) == split_commas(field@),
{
    let n = field.len();
    let mut subs: Vec<Vec<u8>> = Vec::new();
    let mut cur: Vec<u8> = Vec::new();
    let mut i: usize = 0;
    proof {
        assert(field@.subrange(0, n as int) =~= field@);
        assert(views_of(subs@) + commas_from(field@, cur@) =~= commas_from(field@, cur@));
    }
    while i < n
        invariant
            0 <= i <= n,
            n == field@.len(),
            views_of(subs@) + commas_from(field@.subrange(i as int, n as int), cur@)
                == split_commas(field@),
        decreases n - i,
    {
        let b = field[i];
        proof {
            assert(field@.subrange(i as int, n as int).drop_first()
                =~= field@.subrange(i as int + 1, n as int));
        }
        if b == 44 {
            let ghost old_subs = subs@;
            let ghost old_cur = cur@;
            subs.push(cur);
            cur = Vec::new();
            proof {
                lemma_views_of_push(old_subs, subs@[subs@.len() - 1]);
                assert(views_of(old_subs).push(old_cur)
                    + commas_from(field@.subrange(i as int + 1, n as int), Seq::empty())
                    =~= views_of(old_subs)
                    + commas_from(field@.subrange(i as int, n as int), old_cur));
            }
        } else {
            cur.push(b);
        }
        i = i + 1;
    }
    let ghost old_subs = subs@;
    let ghost old_cur = cur@;
    subs.push(cur);
    proof {
        assert(field@.subrange(n as int, n as int) =~= Seq::<u8>::empty());
        lemma_views_of_push(old_subs, subs@[subs@.len() - 1]);
        assert(views_of(old_subs).push(old_cur)
            =~= views_of(old_subs) + commas_from(Seq::<u8>::empty(), old_cur));
    }
    subs
}

/// Whether one sub-token matches the target.
pub fn matches_subtoken(h: &Vec<u8>, target: &Vec<u8>) -> (r: bool)
    ensures
        r == subtoken_matches(h@, target@),
{
    let clean = clean_host_of(h);
    if bytes_eq(&clean, target) {
        return true;
    }
    contains_bytes(h, target)
}

/// Whether a host field matches the target: some comma-separated sub-token
/// of it does.
pub fn matches_host_field(field: &Vec<u8>, target: &Vec<u8>) -> (r: bool)
    ensures
        r == host_matches(field@, target@),
{
    let subs = split_host_field(field);
    let mut i: usize = 0;
    while i < subs.len()
        invariant
            views_of(subs@) == split_commas(field@),
            0 <= i <= subs@.len(),
            forall|j: int| 0 <= j < i ==> !subtoken_matches(#[trigger] split_commas(field@)[j], target@),
        decreases subs@.len() - i,
    {
        proof {
            assert(split_commas(field@)[i as int] == subs@[i as int]@);
        }
        if matches_subtoken(&subs[i], target) {
            return true;
        }
        i = i + 1;
    }
    false
}

/// Whether a whole line matches the target: it is an entry line and its
/// host field matches.
pub fn matches_line(line: &Vec<u8>, target: &Vec<u8>) -> (r: bool)
    ensures
        r == line_matches(line@, target@),
{
    if !is_entry_line(line) {
        return false;
    }
    let field = host_field_of(line);
    matches_host_field(&field, target)
}

} // verus!
