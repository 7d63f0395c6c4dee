//! Removal of the entry lines that match a target identifier.
//!
//! Matching entry lines are dropped; every other line — entries for other
//! hosts, comments and blank lines — is kept verbatim and in its original
//! relative order. When nothing matches, the file is to be left untouched.

use vstd::prelude::*;
use crate::entry::host_field;
use crate::matching::line_matches;
use crate::matching::matches_line;
use crate::text::join_lines_spec;
use crate::text::spec_lines;
use crate::text::views_of;
use crate::text::lemma_views_of_push;
use crate::text::copy_bytes;
use crate::text::split_lines;
use crate::text::join_lines;
use crate::entry::host_field_of;

verus! {

/// The lines that removal keeps: every line that does not match the
/// target, in its original order.
pub open spec fn kept_lines(lines: Seq<Seq<u8>>, target: Seq<u8>) -> Seq<Seq<u8>> {
    lines.filter(|l: Seq<u8>| !line_matches(l, target))
}

/// The host fields of the removed lines, in their original order.
pub open spec fn removed_fields(lines: Seq<Seq<u8>>, target: Seq<u8>) -> Seq<Seq<u8>> {
    lines.filter(|l: Seq<u8>| line_matches(l, target)).map_values(|l: Seq<u8>| host_field(l))
}

proof fn lemma_kept_snoc(lines: Seq<Seq<u8>>, l: Seq<u8>, target: Seq<u8>)
    ensures
        !line_matches(l, target) ==> kept_lines(lines.push(l), target) == kept_lines(
            lines,
            target,
        ).push(l),
        line_matches(l, target) ==> kept_lines(lines.push(l), target) == kept_lines(lines, target),
        line_matches(l, target) ==> removed_fields(lines.push(l), target) == removed_fields(
            lines,
            target,
        ).push(host_field(l)),
        !line_matches(l, target) ==> removed_fields(lines.push(l), target) == removed_fields(
            lines,
            target,
        ),
{
    reveal(Seq::filter);
    assert(lines.push(l).drop_last() =~= lines);
    if line_matches(l, target) {
        assert(removed_fields(lines.push(l), target) =~= removed_fields(lines, target).push(
            host_field(l),
        ));
    }
}

/// What filtering the lines of the file against a target yields.
pub struct FilterOutcome {
    /// The lines to keep, verbatim and in order.
    pub kept: Vec<Vec<u8>>,
    /// The host field of each removed line, in order; its length is the
    /// number of removed entries.
    pub removed_hosts: Vec<Vec<u8>>,
}

/// The lines split into those kept and the host fields of those removed.
pub fn filter_lines(lines: &Vec<Vec<u8>>, target: &Vec<u8>) -> (r: FilterOutcome)
    ensures
        views_of(r.kept@) == kept_lines(views_of(lines@), target@),
        views_of(r.removed_hosts@) == removed_fields(views_of(lines@), target@),
{
    let n = lines.len();
    let mut kept: Vec<Vec<u8>> = Vec::new();
    let mut removed_hosts: Vec<Vec<u8>> = Vec::new();
    let mut i: usize = 0;
    proof {
        assert(views_of(lines@).subrange(0, 0) =~= Seq::<Seq<u8>>::empty());
        reveal(Seq::filter);
        assert(views_of(kept@) =~= kept_lines(Seq::empty(), target@));
        assert(views_of(removed_hosts@) =~= removed_fields(Seq::empty(), target@));
    }
    while i < n
        invariant
            0 <= i <= n,
            n == lines@.len(),
            views_of(kept@) == kept_lines(views_of(lines@).subrange(0, i as int), target@),
            views_of(removed_hosts@) == removed_fields(
                views_of(lines@).subrange(0, i as int),
                target@,
            ),
        decreases n - i,
    {
        let ghost prefix = views_of(lines@).subrange(0, i as int);
        let line = &lines[i];
        proof {
            assert(views_of(lines@).subrange(0, i as int + 1) =~= prefix.push(line@));
            lemma_kept_snoc(prefix, line@, target@);
        }
        if matches_line(line, target) {
            let ghost old_removed = removed_hosts@;
            let field = host_field_of(line);
            removed_hosts.push(field);
            proof {
                lemma_views_of_push(old_removed, removed_hosts@[removed_hosts@.len() - 1]);
            }
        } else {
            let ghost old_kept = kept@;
            let copy = copy_bytes(line);
            kept.push(copy);
            proof {
                lemma_views_of_push(old_kept, kept@[kept@.len() - 1]);
            }
        }
        i = i + 1;
    }
    proof {
        assert(views_of(lines@).subrange(0, n as int) =~= views_of(lines@));
    }
    FilterOutcome { kept, removed_hosts }
}

/// What a removal run decides about the file.
pub enum RemoveOutcome {
    /// No line matched: the file is to be left exactly as it is.
    NoMatch,
    /// Some lines matched: the file is to be overwritten with
    /// `new_contents`; `removed_hosts` names the host field of each
    /// removed line, in order.
    Rewrite { new_contents: Vec<u8>, removed_hosts: Vec<Vec<u8>> },
}

/// The whole removal decision on the file's contents: which lines go, and
/// what the file is to hold afterwards.
pub fn remove_from_contents(contents: &Vec<u8>, target: &Vec<u8>) -> (r: RemoveOutcome)
    ensures
        (r is NoMatch) <==> removed_fields(spec_lines(contents@), target@).len() == 0,
        (r is Rewrite) ==> r->new_contents@ == join_lines_spec(
            kept_lines(spec_lines(contents@), target@),
        ),
        (r is Rewrite) ==> views_of(r->removed_hosts@) == removed_fields(
            spec_lines(contents@),
            target@,
        ),
{
    let lines = split_lines(contents);
    let outcome = filter_lines(&lines, target);
    if outcome.removed_hosts.len() == 0 {
        RemoveOutcome::NoMatch
    } else {
        let new_contents = join_lines(&outcome.kept);
        RemoveOutcome::Rewrite { new_contents, removed_hosts: outcome.removed_hosts }
    }
}

/// Removal parts the lines exactly in two: every kept line is one that
/// does not match the target, and each line either stands among the kept
/// ones or contributes its host field to the removed ones, so the lengths
/// add up to the whole file.
pub proof fn lemma_removal_partitions(lines: Seq<Seq<u8>>, target: Seq<u8>)
    ensures
        kept_lines(lines, target).len() + removed_fields(lines, target).len() == lines.len(),
        forall|i: int|
            0 <= i < kept_lines(lines, target).len() ==> !line_matches(
                #[trigger] kept_lines(lines, target)[i],
                target,
            ),
    decreases lines.len(),
{
    reveal(Seq::filter);
    if lines.len() > 0 {
        lemma_removal_partitions(lines.drop_last(), target);
        lemma_kept_snoc(lines.drop_last(), lines.last(), target);
        assert(lines.drop_last().push(lines.last()) =~= lines);
    }
}

/// When no line of the file matches the target, removal keeps every line
/// exactly as it stands and removes nothing.
pub proof fn lemma_no_match_round_trip(lines: Seq<Seq<u8>>, target: Seq<u8>)
    requires
        forall|i: int| 0 <= i < lines.len() ==> !line_matches(#[trigger] lines[i], target),
    ensures
        kept_lines(lines, target) == lines,
        removed_fields(lines, target).len() == 0,
    decreases lines.len(),
{
    reveal(Seq::filter);
    if lines.len() == 0 {
        assert(kept_lines(lines, target) =~= lines);
    } else {
        lemma_no_match_round_trip(lines.drop_last(), target);
        lemma_kept_snoc(lines.drop_last(), lines.last(), target);
        assert(lines.drop_last().push(lines.last()) =~= lines);
    }
}

} // verus!
