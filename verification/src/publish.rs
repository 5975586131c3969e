//! The publisher: composes the status message from the selected word and
//! drives bounded retry. Each attempt reselects a candidate, composes the
//! message and asks for one submission; after `allows_retry_count`
//! additional failed attempts the run surfaces the failure. In dry-run
//! mode no submission is ever asked for and the run reports success.
//!
//! Submitting is outside work: the caller performs each `Submit` directive
//! and records whether it succeeded.

use vstd::prelude::*;
use crate::select::SelectError;

verus! {

/// The fixed marker every published message starts with.
pub open spec fn marker() -> Seq<char> {
    seq!['音']
}

/// The composed message: marker, then the selected word, nothing else.
pub open spec fn render_message(word: Seq<char>) -> Seq<char> {
    marker() + word
}

/// Composes the message for one selected word.
pub fn compose_message(word: &Vec<char>) -> (m: Vec<char>)
    ensures
        m@ == render_message(word@),
{
    let mut m: Vec<char> = Vec::new();
    m.push('音');
    let mut i: usize = 0;
    while i < word.len()
        invariant
            i <= word@.len(),
            m@ == marker() + word@.take(i as int),
        decreases word@.len() - i,
    {
        m.push(word[i]);
        proof {
            assert((marker() + word@.take(i as int)).push(word@[i as int]) =~= marker()
                + word@.take(i as int + 1));
        }
        i = i + 1;
    }
    proof {
        assert(word@.take(word@.len() as int) =~= word@);
    }
    m
}

/// Where one publishing run stands.
#[derive(Debug)]
pub enum PublishStatus {
    Pending,
    Succeeded,
    Failed,
}

/// What the caller is asked to do next: submit the composed message, or
/// nothing — the run is already over, and `Done` carries the message that
/// was composed but, in dry-run mode, deliberately not submitted.
pub enum Directive {
    Submit(Vec<char>),
    Done(Vec<char>),
}

/// The retry state machine. `attempts` counts the submissions asked for so
/// far; at most `allows_retry_count + 1` are ever asked for.
pub struct Publisher {
    pub allows_retry_count: usize,
    pub dry_run: bool,
    pub attempts: usize,
    pub status: PublishStatus,
}

/// The machine after one more submission was asked for.
pub open spec fn spec_submit(p: Publisher) -> Publisher {
    Publisher { attempts: (p.attempts + 1) as usize, ..p }
}

/// The machine after the caller reports how a submission went: success
/// finishes; a failure retries unless the attempt budget is spent.
pub open spec fn spec_record(p: Publisher, ok: bool) -> Publisher {
    if ok {
        Publisher { status: PublishStatus::Succeeded, ..p }
    } else if p.attempts > p.allows_retry_count {
        Publisher { status: PublishStatus::Failed, ..p }
    } else {
        p
    }
}

impl Publisher {
    /// The attempt count never leaves the budget, and the budget leaves
    /// room to count one more attempt.
    pub open spec fn wf(self) -> bool {
        self.attempts <= self.allows_retry_count + 1 && self.allows_retry_count < usize::MAX
    }

    /// A fresh run: nothing attempted, nothing decided.
    pub fn new(allows_retry_count: usize, dry_run: bool) -> (p: Publisher)
        requires
            allows_retry_count < usize::MAX,
        ensures
            p.wf(),
            p.allows_retry_count == allows_retry_count,
            p.dry_run == dry_run,
            p.attempts == 0,
            p.status is Pending,
    {
        Publisher { allows_retry_count, dry_run, attempts: 0, status: PublishStatus::Pending }
    }

    /// One attempt: select a candidate, compose the message, and either
    /// ask the caller to submit it, or, in dry-run mode, finish
    /// successfully without asking for anything. Fails if and only if the
    /// pool is empty.
    pub fn next_directive(
        &mut self,
        pool: &Vec<Vec<char>>,
        rng: &mut rand::rngs::ThreadRng,
    ) -> (r: Result<Directive, SelectError>)
        requires
            old(self).wf(),
            old(self).status is Pending,
            old(self).attempts <= old(self).allows_retry_count,
        ensures
            final(self).wf(),
            (r is Err) <==> pool@.len() == 0,
            r is Err ==> *final(self) == *old(self),
            (r matches Ok(d) ==> (if old(self).dry_run {
                (d matches Directive::Done(m) && *final(self) == (Publisher {
                    status: PublishStatus::Succeeded,
                    ..*old(self)
                }) && (exists|i: int|
                    0 <= i < pool@.len() && m@ == render_message(#[trigger] pool@[i]@)))
            } else {
                (d matches Directive::Submit(m) && *final(self) == spec_submit(*old(self)) && (exists|i: int|
                    0 <= i < pool@.len() && m@ == render_message(#[trigger] pool@[i]@)))
            })),
    {
        match crate::select::select_candidate(pool, rng) {
            Err(e) => Err(e),
            Ok(word) => {
                let m = compose_message(&word);
                if self.dry_run {
                    self.status = PublishStatus::Succeeded;
                    Ok(Directive::Done(m))
                } else {
                    self.attempts = self.attempts + 1;
                    Ok(Directive::Submit(m))
                }
            },
        }
    }

    /// The caller reports how the submission went.
    pub fn record_outcome(&mut self, ok: bool)
        requires
            old(self).wf(),
            old(self).status is Pending,
            1 <= old(self).attempts,
        ensures
            final(self).wf(),
            *final(self) == spec_record(*old(self), ok),
    {
        if ok {
            self.status = PublishStatus::Succeeded;
        } else if self.attempts > self.allows_retry_count {
            self.status = PublishStatus::Failed;
        }
    }
}

/// One failed round: a submission is asked for and the caller reports
/// failure.
pub open spec fn failed_round(p: Publisher) -> Publisher {
    spec_record(spec_submit(p), false)
}

/// The machine after `n` failed rounds.
pub open spec fn after_failed_rounds(p: Publisher, n: nat) -> Publisher
    decreases n,
{
    if n == 0 {
        p
    } else {
        failed_round(after_failed_rounds(p, (n - 1) as nat))
    }
}

/// After `n <= allows_retry_count + 1` failed rounds from a fresh machine,
/// exactly `n` submissions were asked for, and the machine is still
/// retrying unless the budget is spent.
proof fn lemma_failed_rounds_invariant(p0: Publisher, n: nat)
    requires
        p0.wf(),
        p0.attempts == 0,
        p0.status is Pending,
        n <= p0.allows_retry_count + 1,
    ensures
        after_failed_rounds(p0, n).attempts == n,
        after_failed_rounds(p0, n).allows_retry_count == p0.allows_retry_count,
        after_failed_rounds(p0, n).dry_run == p0.dry_run,
        n <= p0.allows_retry_count ==> after_failed_rounds(p0, n).status is Pending,
        n == p0.allows_retry_count + 1 ==> after_failed_rounds(p0, n).status is Failed,
        n == 0 ==> after_failed_rounds(p0, n).status is Pending,
    decreases n,
{
    if n > 0 {
        lemma_failed_rounds_invariant(p0, (n - 1) as nat);
    }
}

/// Law: when every submission fails, the publisher asks for exactly
/// `allows_retry_count + 1` submissions — the first attempt plus
/// `allows_retry_count` retries — stays pending through every earlier
/// round, and only then surfaces the failure.
pub proof fn lemma_all_failures_attempt_count(p0: Publisher)
    requires
        p0.wf(),
        p0.attempts == 0,
        p0.status is Pending,
    ensures
        after_failed_rounds(p0, (p0.allows_retry_count + 1) as nat).attempts
            == p0.allows_retry_count + 1,
        after_failed_rounds(p0, (p0.allows_retry_count + 1) as nat).status is Failed,
        forall|m: nat|
            m <= p0.allows_retry_count ==> (#[trigger] after_failed_rounds(p0, m)).status
                is Pending,
{
    lemma_failed_rounds_invariant(p0, (p0.allows_retry_count + 1) as nat);
    assert forall|m: nat|
        m <= p0.allows_retry_count implies (#[trigger] after_failed_rounds(p0, m)).status
        is Pending by {
        lemma_failed_rounds_invariant(p0, m);
    }
}

} // verus!
