//! Grouping the entry lines of a trust file by host field, for listing.
//!
//! Distinct host fields are kept in first-seen order; each carries the
//! number of entry lines bearing it.

use vstd::prelude::*;
use crate::entry::host_field;
use crate::entry::is_entry;
use crate::entry::host_field_of;
use crate::entry::is_entry_line;
use crate::text::views_of;
use crate::text::all_space;
use crate::text::spec_lines;
use crate::text::is_all_whitespace;
use crate::text::split_lines;
use crate::text::copy_bytes;
use crate::text::bytes_eq;

verus! {

/// The host fields of the entry lines, in file order.
pub open spec fn entry_hosts(lines: Seq<Seq<u8>>) -> Seq<Seq<u8>> {
    lines.filter(|l: Seq<u8>| is_entry(l)).map_values(|l: Seq<u8>| host_field(l))
}

/// The distinct values of `hosts` in the order of their first occurrence.
pub open spec fn first_seen(hosts: Seq<Seq<u8>>) -> Seq<Seq<u8>>
    decreases hosts.len(),
{
    if hosts.len() == 0 {
        Seq::empty()
    } else {
        let rest = first_seen(hosts.drop_last());
        if rest.contains(hosts.last()) {
            rest
        } else {
            rest.push(hosts.last())
        }
    }
}

/// How often `h` occurs in `hosts`.
pub open spec fn count_in(hosts: Seq<Seq<u8>>, h: Seq<u8>) -> nat {
    hosts.filter(|x: Seq<u8>| x == h).len()
}

/// One listed host: a distinct host field and the number of entry lines
/// bearing it.
pub struct HostCount {
    pub host: Vec<u8>,
    pub count: usize,
}

proof fn lemma_count_in_le(hosts: Seq<Seq<u8>>, h: Seq<u8>)
    ensures
        count_in(hosts, h) <= hosts.len(),
    decreases hosts.len(),
{
    reveal(Seq::filter);
    if hosts.len() > 0 {
        lemma_count_in_le(hosts.drop_last(), h);
    }
}

proof fn lemma_count_in_snoc(hosts: Seq<Seq<u8>>, x: Seq<u8>, h: Seq<u8>)
    ensures
        count_in(hosts.push(x), h) == count_in(hosts, h) + (if x == h {
            1nat
        } else {
            0nat
        }),
{
    reveal(Seq::filter);
    assert(hosts.push(x).drop_last() =~= hosts);
}

proof fn lemma_entry_hosts_snoc(lines: Seq<Seq<u8>>, l: Seq<u8>)
    ensures
        is_entry(l) ==> entry_hosts(lines.push(l)) == entry_hosts(lines).push(host_field(l)),
        !is_entry(l) ==> entry_hosts(lines.push(l)) == entry_hosts(lines),
{
    reveal(Seq::filter);
    assert(lines.push(l).drop_last() =~= lines);
    if is_entry(l) {
        assert(entry_hosts(lines.push(l)) =~= entry_hosts(lines).push(host_field(l)));
    }
}

/// The entry lines of the file grouped by host field: distinct host fields
/// in first-seen order, each with its occurrence count.
pub fn group_hosts(lines: &Vec<Vec<u8>>) -> (groups: Vec<HostCount>)
    ensures
        groups@.len() == first_seen(entry_hosts(views_of(lines@))).len(),
        forall|k: int|
            0 <= k < groups@.len() ==> (#[trigger] groups@[k]).host@ == first_seen(
                entry_hosts(views_of(lines@)),
            )[k],
        forall|k: int|
            0 <= k < groups@.len() ==> (#[trigger] groups@[k]).count as nat == count_in(
                entry_hosts(views_of(lines@)),
                groups@[k].host@,
            ),
{
    let n = lines.len();
    let mut groups: Vec<HostCount> = Vec::new();
    let mut i: usize = 0;
    proof {
        assert(views_of(lines@).subrange(0, 0) =~= Seq::<Seq<u8>>::empty());
    }
    while i < n
        invariant
            0 <= i <= n,
            n == lines@.len(),
            groups@.len() == first_seen(entry_hosts(views_of(lines@).subrange(0, i as int))).len(),
            forall|k: int|
                0 <= k < groups@.len() ==> (#[trigger] groups@[k]).host@ == first_seen(
                    entry_hosts(views_of(lines@).subrange(0, i as int)),
                )[k],
            forall|k: int|
                0 <= k < groups@.len() ==> (#[trigger] groups@[k]).count as nat == count_in(
                    entry_hosts(views_of(lines@).subrange(0, i as int)),
                    groups@[k].host@,
                ),
        decreases n - i,
    {
        let ghost prefix = views_of(lines@).subrange(0, i as int);
        let ghost hs = entry_hosts(prefix);
        let line = &lines[i];
        proof {
            assert(views_of(lines@).subrange(0, i as int + 1) =~= prefix.push(line@));
            lemma_entry_hosts_snoc(prefix, line@);
        }
        if is_entry_line(line) {
            let h = host_field_of(line);
            let ghost hs2 = hs.push(h@);
            proof {
                assert(hs2.drop_last() =~= hs);
                assert(forall|x: Seq<u8>| count_in(hs2, x) == count_in(hs, x) + (if h@ == x {
                    1nat
                } else {
                    0nat
                })) by {
                    assert forall|x: Seq<u8>| #[trigger] count_in(hs2, x) == count_in(hs, x) + (
                    if h@ == x {
                        1nat
                    } else {
                        0nat
                    }) by {
                        lemma_count_in_snoc(hs, h@, x);
                    }
                }
            }
            let mut j: usize = 0;
            let mut found: bool = false;
            while j < groups.len() && !found
                invariant
                    0 <= j <= groups@.len(),
                    !found ==> forall|m: int| 0 <= m < j ==> (#[trigger] groups@[m]).host@ != h@,
                    found ==> j < groups@.len() && groups@[j as int].host@ == h@,
                decreases groups@.len() - j + (if found {
                    0int
                } else {
                    1int
                }),
            {
                if bytes_eq(&groups[j].host, &h) {
                    found = true;
                } else {
                    j = j + 1;
                }
            }
            if found {
                proof {
                    assert(first_seen(hs).contains(h@)) by {
                        assert(first_seen(hs)[j as int] == h@);
                    }
                    assert(first_seen(hs2) == first_seen(hs));
                    lemma_first_seen_distinct(hs);
                    lemma_count_in_le(hs, h@);
                    lemma_entry_hosts_len(prefix);
                }
                let c = groups[j].count;
                let copied = copy_bytes(&groups[j].host);
                let ghost old_groups = groups@;
                groups[j] = HostCount { host: copied, count: c + 1 };
                proof {
                    assert(forall|k: int|
                        0 <= k < groups@.len() && k != j ==> groups@[k] == old_groups[k]);
                    assert(forall|k: int|
                        0 <= k < groups@.len() && k != j ==> (#[trigger] groups@[k]).host@
                            != h@) by {
                        assert(forall|k: int|
                            0 <= k < groups@.len() && k != j ==> first_seen(hs)[k] != first_seen(
                                hs,
                            )[j as int]);
                    }
                }
            } else {
                proof {
                    assert(!first_seen(hs).contains(h@)) by {
                        if first_seen(hs).contains(h@) {
                            let m = choose|m: int|
                                0 <= m < first_seen(hs).len() && first_seen(hs)[m] == h@;
                            assert(groups@[m].host@ == h@);
                        }
                    }
                    assert(first_seen(hs2) == first_seen(hs).push(h@));
                    assert(count_in(hs, h@) == 0) by {
                        if count_in(hs, h@) > 0 {
                            lemma_count_in_pos(hs, h@);
                        }
                    }
                }
                groups.push(HostCount { host: h, count: 1 });
            }
        }
        i = i + 1;
    }
    proof {
        assert(views_of(lines@).subrange(0, n as int) =~= views_of(lines@));
    }
    groups
}

/// What a listing run reports about the file's contents.
pub enum ListReport {
    /// The file holds nothing but whitespace.
    Empty,
    /// The distinct host fields in first-seen order, each with its
    /// occurrence count.
    Entries(Vec<HostCount>),
}

/// The whole listing decision on the file's contents: a whitespace-only
/// file is reported empty, any other is grouped by host field. The
/// contents are only read, never changed.
pub fn list_report(contents: &Vec<u8>) -> (r: ListReport)
    ensures
        (r is Empty) <==> all_space(contents@),
        (r is Entries) ==> {
            let groups = r->0@;
            let hosts = entry_hosts(spec_lines(contents@));
            &&& groups.len() == first_seen(hosts).len()
            &&& forall|k: int|
                0 <= k < groups.len() ==> (#[trigger] groups[k]).host@ == first_seen(hosts)[k]
            &&& forall|k: int|
                0 <= k < groups.len() ==> (#[trigger] groups[k]).count as nat == count_in(
                    hosts,
                    groups[k].host@,
                )
        },
{
    if is_all_whitespace(contents) {
        ListReport::Empty
    } else {
        let lines = split_lines(contents);
        ListReport::Entries(group_hosts(&lines))
    }
}

/// The first-seen list holds each host at most once.
proof fn lemma_first_seen_distinct(hosts: Seq<Seq<u8>>)
    ensures
        forall|k1: int, k2: int|
            0 <= k1 < k2 < first_seen(hosts).len() ==> #[trigger] first_seen(hosts)[k1]
                != #[trigger] first_seen(hosts)[k2],
    decreases hosts.len(),
{
    if hosts.len() > 0 {
        lemma_first_seen_distinct(hosts.drop_last());
        let rest = first_seen(hosts.drop_last());
        if !rest.contains(hosts.last()) {
            assert(forall|k: int| 0 <= k < rest.len() ==> rest[k] != hosts.last());
        }
    }
}

/// There are no more entry hosts than lines.
proof fn lemma_entry_hosts_len(lines: Seq<Seq<u8>>)
    ensures
        entry_hosts(lines).len() <= lines.len(),
    decreases lines.len(),
{
    if lines.len() > 0 {
        assert(lines.drop_last().push(lines.last()) =~= lines);
        lemma_entry_hosts_len(lines.drop_last());
        lemma_entry_hosts_snoc(lines.drop_last(), lines.last());
    }
}

/// A positive count means the host occurs, and an occurring host stands in
/// the first-seen list.
proof fn lemma_count_in_pos(hosts: Seq<Seq<u8>>, h: Seq<u8>)
    requires
        count_in(hosts, h) > 0,
    ensures
        first_seen(hosts).contains(h),
    decreases hosts.len(),
{
    reveal(Seq::filter);
    if hosts.len() > 0 {
        assert(hosts.drop_last().push(hosts.last()) =~= hosts);
        lemma_count_in_snoc(hosts.drop_last(), hosts.last(), h);
        if hosts.last() == h {
            if !first_seen(hosts.drop_last()).contains(h) {
                assert(first_seen(hosts)[first_seen(hosts).len() - 1] == h);
            }
        } else {
            lemma_count_in_pos(hosts.drop_last(), h);
            let m = choose|m: int|
                0 <= m < first_seen(hosts.drop_last()).len() && first_seen(hosts.drop_last())[m]
                    == h;
            assert(first_seen(hosts)[m] == h);
        }
    }
}

} // verus!
