//! `wt sync`: what the command reports after it compared each worktree
//! with the manifest.

use vstd::prelude::*;
use crate::repo::opt_view;
use crate::seed::{change_count, count_changes, is_change_spec, Outcome};
use crate::text::{decimal, decimal_string};

verus! {

/// The last line of the report: only when a path needs the user. The
/// command prints nothing more when each worktree is correct, or when it
/// made links and skipped no path.
pub open spec fn sync_summary_text(changes: nat, skipped: nat) -> Option<Seq<char>> {
    if skipped > 0 {
        Some(
            decimal(changes) + " link(s) made. "@ + decimal(skipped)
                + " path(s) need your attention. use --force to replace them"@,
        )
    } else {
        None
    }
}

/// The last line of the report, if any.
pub fn summary(changes: usize, skipped: usize) -> (r: Option<String>)
    ensures
        opt_view(r) == sync_summary_text(changes as nat, skipped as nat),
{
    if skipped > 0 {
        let mut m = decimal_string(changes);
        m.append(" link(s) made. ");
        let s = decimal_string(skipped);
        m.append(s.as_str());
        m.append(" path(s) need your attention. use --force to replace them");
        Some(m)
    } else {
        None
    }
}

/// The outcomes that need the user: a different file kept, or a path that
/// the store does not have.
pub open spec fn skip_count(os: Seq<Outcome>) -> nat
    decreases os.len(),
{
    if os.len() == 0 {
        0
    } else {
        skip_count(os.drop_last()) + if os.last() is SkippedDivergent || os.last() is MissingInStore {
            1nat
        } else {
            0nat
        }
    }
}

proof fn lemma_skip_count_bounded(os: Seq<Outcome>)
    ensures
        skip_count(os) <= os.len(),
    decreases os.len(),
{
    if os.len() > 0 {
        lemma_skip_count_bounded(os.drop_last());
    }
}

/// The two numbers of the last line: links made, and paths skipped.
pub fn tally(outcomes: &Vec<Outcome>) -> (r: (usize, usize))
    ensures
        r.0 as nat == change_count(outcomes@),
        r.1 as nat == skip_count(outcomes@),
{
    let changes = count_changes(outcomes);
    let mut skipped: usize = 0;
    let mut i: usize = 0;
    while i < outcomes.len()
        invariant
            i <= outcomes.len(),
            skipped as nat == skip_count(outcomes@.take(i as int)),
        decreases outcomes.len() - i,
    {
        assert(outcomes@.take(i + 1).drop_last() =~= outcomes@.take(i as int));
        proof {
            lemma_skip_count_bounded(outcomes@.take(i as int));
        }
        match outcomes[i] {
            Outcome::SkippedDivergent | Outcome::MissingInStore => skipped += 1,
            _ => {},
        }
        i += 1;
    }
    assert(outcomes@.take(i as int) =~= outcomes@);
    (changes, skipped)
}

/// A run that finds each worktree correct makes no link, skips no path and
/// prints no last line: so a second run after a run that left nothing to
/// do prints nothing.
pub proof fn law_correct_worktrees_print_nothing(outcomes: Seq<Outcome>)
    requires
        forall|i: int| 0 <= i < outcomes.len() ==> #[trigger] outcomes[i] is AlreadyLinked,
    ensures
        change_count(outcomes) == 0,
        skip_count(outcomes) == 0,
        sync_summary_text(change_count(outcomes), skip_count(outcomes)) is None,
    decreases outcomes.len(),
{
    if outcomes.len() > 0 {
        let rest = outcomes.drop_last();
        assert forall|i: int| 0 <= i < rest.len() implies #[trigger] rest[i] is AlreadyLinked by {
            assert(rest[i] == outcomes[i]);
        }
        law_correct_worktrees_print_nothing(rest);
        assert(outcomes.last() is AlreadyLinked);
    }
}

} // verus!
