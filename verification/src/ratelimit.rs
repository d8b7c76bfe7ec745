//! Sliding-window rate limiter for outgoing messages.
//!
//! Free-standing, so that the call site can apply it without coupling the
//! transport to a policy. The default policy is 50 messages in 5 seconds.
use std::time::{Duration, Instant};

use vstd::prelude::*;

verus! {

/// A reading of the monotonic clock.
#[verifier::external_type_specification]
#[verifier::external_body]
pub struct ExInstant(Instant);

/// How many nanoseconds `Duration::as_nanos` counts in a duration.
pub uninterp spec fn duration_nanos(duration: Duration) -> nat;

/// `Duration::as_nanos` is the whole length of the duration in nanoseconds.
pub assume_specification[ Duration::as_nanos ](duration: &Duration) -> (nanos: u128)
    ensures
        nanos == duration_nanos(*duration),
;

/// `Duration::from_secs` is a duration of that many whole seconds.
pub assume_specification[ Duration::from_secs ](secs: u64) -> (duration: Duration)
    ensures
        duration_nanos(duration) == secs * 1_000_000_000,
;

/// `Instant::now` reads the clock; nothing is claimed of the reading.
pub assume_specification[ Instant::now ]() -> (now: Instant)
;

/// Whether `Instant::elapsed` can say that so much time has passed since an instant.
/// It says another thing each time that it is asked, so it can say many.
pub uninterp spec fn is_elapsed(since: Instant, elapsed: Duration) -> bool;

/// `Instant::elapsed` reads the clock: what it says is what can be said of the time
/// that has passed since the instant. Nothing is claimed of how much that is.
pub assume_specification[ Instant::elapsed ](instant: &Instant) -> (elapsed: Duration)
    ensures
        is_elapsed(*instant, elapsed),
;

/// Whether the clock can show so many nanoseconds since an instant.
pub open spec fn is_reading(since: Instant, nanos: nat) -> bool {
    exists|elapsed: Duration| #[trigger]
        is_elapsed(since, elapsed) && nanos == duration_nanos(elapsed)
}

/// What a limiter decides by. Times are nanoseconds since it was made.
pub struct LimiterView {
    /// How many messages may pass within a window.
    pub max_messages: nat,
    /// How long a window lasts.
    pub window: nat,
    /// When the messages passed that may still count, in order.
    pub passed: Seq<nat>,
}

impl LimiterView {
    /// What holds of every limiter: it remembers no more messages than may pass
    /// within a window.
    pub open spec fn wf(self) -> bool {
        self.passed.len() <= self.max_messages <= u32::MAX
    }
}

/// Whether a time lies within a window of another.
pub open spec fn within(window: nat, time: nat, now: nat) -> bool {
    now - time <= window
}

/// Those of some times that lie within a window of now.
pub open spec fn recent(times: Seq<nat>, window: nat, now: nat) -> Seq<nat> {
    times.filter(|time: nat| within(window, time, now))
}

/// A message asked for at a time: the limiter after it, and whether the message
/// may pass, which it may where fewer than the limit passed within a window of now.
pub open spec fn limiter_step(limiter: LimiterView, now: nat) -> (LimiterView, bool) {
    let counted = recent(limiter.passed, limiter.window, now);
    if counted.len() < limiter.max_messages {
        (LimiterView { passed: counted.push(now), ..limiter }, true)
    } else {
        (LimiterView { passed: counted, ..limiter }, false)
    }
}

/// Machine times as numbers.
pub open spec fn as_times(times: Seq<u128>) -> Seq<nat> {
    Seq::new(times.len(), |i: int| times[i] as nat)
}

/// Lets at most a fixed number of messages pass in any span of time as long as its
/// window.
pub struct SlidingWindowLimiter {
    max_messages: u32,
    window_nanos: u128,
    passed: Vec<u128>,
    made: Instant,
}

impl View for SlidingWindowLimiter {
    type V = LimiterView;

    closed spec fn view(&self) -> LimiterView {
        LimiterView {
            max_messages: self.max_messages as nat,
            window: self.window_nanos as nat,
            passed: as_times(self.passed@),
        }
    }
}

impl SlidingWindowLimiter {
    /// A limiter of which no message has been asked yet.
    pub fn new(max_messages: u32, window: Duration) -> (limiter: Self)
        ensures
            limiter@ == (LimiterView {
                max_messages: max_messages as nat,
                window: duration_nanos(window),
                passed: seq![],
            }),
            limiter@.wf(),
    {
        let limiter = SlidingWindowLimiter {
            max_messages,
            window_nanos: window.as_nanos(),
            passed: Vec::new(),
            made: Instant::now(),
        };
        assert(limiter@.passed =~= seq![]);
        limiter
    }

    /// The default IRC policy: 50 messages in 5 seconds.
    pub fn default_irc() -> (limiter: Self)
        ensures
            limiter@ == default_irc_limiter(),
            limiter@.wf(),
            limiter@.max_messages == 50,
            limiter@.window == 5_000_000_000,
            limiter@.passed.len() == 0,
    {
        Self::new(50, Duration::from_secs(5))
    }

    /// Forgets the messages that passed longer ago than a window.
    fn forget(&mut self, now: u128)
        ensures
            final(self)@ == (LimiterView {
                passed: recent(old(self)@.passed, old(self)@.window, now as nat),
                ..old(self)@
            }),
            final(self).since() == old(self).since(),
    {
        let ghost keep = |time: nat| within(self@.window, time, now as nat);
        let ghost times = self@.passed;
        let mut counted: Vec<u128> = Vec::new();
        let mut i: usize = 0;
        proof {
            reveal(Seq::filter);
            assert(times.take(0) =~= seq![]);
            assert(as_times(counted@) =~= seq![]);
        }
        while i < self.passed.len()
            invariant
                i <= self.passed@.len(),
                times == as_times(self.passed@),
                keep == (|time: nat| within(self.window_nanos as nat, time, now as nat)),
                as_times(counted@) == times.take(i as int).filter(keep),
            decreases self.passed@.len() - i,
        {
            let time = self.passed[i];
            let ghost before = counted@;
            proof {
                reveal(Seq::filter);
                assert(times.take(i + 1).drop_last() =~= times.take(i as int));
            }
            if now <= time || now - time <= self.window_nanos {
                counted.push(time);
                assert(as_times(counted@) =~= as_times(before).push(time as nat));
            }
            i += 1;
        }
        assert(times.take(i as int) =~= times);
        self.passed = counted;
    }

    /// Asks for a message at a time, given in nanoseconds since the limiter was
    /// made. `true` if the message may pass; it then counts against those that
    /// come within a window of it. `false` if as many as may pass have passed
    /// within a window of now, and the caller should drop the message.
    pub fn check_and_consume_at(&mut self, now: u128) -> (allowed: bool)
        ensures
            (final(self)@, allowed) == limiter_step(old(self)@, now as nat),
            final(self).since() == old(self).since(),
            old(self)@.wf() ==> final(self)@.wf(),
    {
        self.forget(now);
        let ghost counted = self@.passed;
        proof {
            lemma_recent_is_a_part(old(self)@.passed, old(self)@.window, now as nat);
        }
        let allowed = (self.passed.len() as u64) < self.max_messages as u64;
        if allowed {
            self.passed.push(now);
            assert(self@.passed =~= counted.push(now as nat));
        }
        allowed
    }

    /// Since when the limiter counts the time.
    pub closed spec fn since(&self) -> Instant {
        self.made
    }

    /// Nanoseconds since the limiter was made, as the clock shows them.
    pub(crate) fn clock(&self) -> (nanos: u128)
        ensures
            is_reading(self.since(), nanos as nat),
    {
        self.made.elapsed().as_nanos()
    }

    /// Asks for a message at the time that the clock shows. See
    /// [`Self::check_and_consume_at`].
    pub fn check_and_consume(&mut self) -> (allowed: bool)
        ensures
            exists|now: nat|
                is_reading(old(self).since(), now) && (final(self)@, allowed)
                    == #[trigger] limiter_step(old(self)@, now),
            final(self).since() == old(self).since(),
            old(self)@.wf() ==> final(self)@.wf(),
    {
        let now: u128 = self.clock();
        self.check_and_consume_at(now)
    }
}

/// The default IRC policy, of which no message has been asked yet.
pub open spec fn default_irc_limiter() -> LimiterView {
    LimiterView { max_messages: 50, window: 5_000_000_000, passed: seq![] }
}

// ---------------------------------------------------------------------------
// Laws

/// A limiter after messages asked for at these times, in order.
pub open spec fn limiter_after(limiter: LimiterView, times: Seq<nat>) -> LimiterView
    decreases times.len(),
{
    if times.len() == 0 {
        limiter
    } else {
        limiter_step(limiter_after(limiter, times.drop_last()), times.last()).0
    }
}

/// Whether the message at a place in a sequence may pass.
pub open spec fn passes(limiter: LimiterView, times: Seq<nat>, i: int) -> bool {
    limiter_step(limiter_after(limiter, times.take(i)), times[i]).1
}

/// When those of the messages asked for at these times pass that may.
pub open spec fn passed_times(limiter: LimiterView, times: Seq<nat>) -> Seq<nat>
    decreases times.len(),
{
    if times.len() == 0 {
        seq![]
    } else {
        let before = passed_times(limiter, times.drop_last());
        if limiter_step(limiter_after(limiter, times.drop_last()), times.last()).1 {
            before.push(times.last())
        } else {
            before
        }
    }
}

/// Whether no time comes before an earlier one.
pub open spec fn in_order(times: Seq<nat>) -> bool {
    forall|i: int, j: int| 0 <= i <= j < times.len() ==> times[i] <= times[j]
}

/// Whether at most `max` of these times lie in any span as long as the window,
/// wherever it begins: those from one time to another that is within a window of it
/// are no more than that.
pub open spec fn limited(times: Seq<nat>, max: nat, window: nat) -> bool {
    forall|i: int, j: int|
        0 <= i <= j < times.len() && #[trigger] within(window, times[i], times[j]) ==> j - i + 1
            <= max
}

/// In any span of time as long as the window, wherever it begins, at most
/// `max_messages` messages pass; so of any `max_messages + 1` that passed, the last
/// is more than a window after the first.
pub proof fn no_span_holds_more_than_the_limit(limiter: LimiterView, times: Seq<nat>)
    requires
        limiter.passed.len() == 0,
        in_order(times),
    ensures
        ({
            let passed = passed_times(limiter, times);
            &&& limited(passed, limiter.max_messages, limiter.window)
            &&& forall|i: int|
                0 <= i < passed.len() - limiter.max_messages ==> passed[i
                    + limiter.max_messages] - #[trigger] passed[i] > limiter.window
        }),
{
    lemma_limiter_run(limiter, times);
    let passed = passed_times(limiter, times);
    let max = limiter.max_messages as int;
    assert forall|i: int| 0 <= i < passed.len() - max implies passed[i + max]
        - #[trigger] passed[i] > limiter.window by {
        assert(within(limiter.window, passed[i], passed[i + max]) ==> max + 1 <= max);
    }
}

/// Of messages that are asked for within a window of one another, the first
/// `max_messages` pass, and none after them.
pub proof fn first_messages_of_a_window_pass(limiter: LimiterView, times: Seq<nat>, i: int)
    requires
        limiter.passed.len() == 0,
        forall|a: int, b: int|
            0 <= a <= b < times.len() ==> #[trigger] within(limiter.window, times[a], times[b]),
        0 <= i < times.len(),
    ensures
        passes(limiter, times, i) == (i < limiter.max_messages),
{
    lemma_first_messages(limiter, times, i);
    lemma_all_recent(
        limiter_after(limiter, times.take(i)).passed,
        limiter.window,
        times[i],
    );
}

/// A message asked for when every other passed longer ago than a window passes, if
/// any may, and is counted as if nothing had gone before.
pub proof fn old_messages_are_forgotten(limiter: LimiterView, now: nat)
    requires
        forall|i: int|
            0 <= i < limiter.passed.len() ==> !#[trigger] within(
                limiter.window,
                limiter.passed[i],
                now,
            ),
    ensures
        limiter_step(limiter, now) == limiter_step(LimiterView { passed: seq![], ..limiter }, now),
        limiter_step(limiter, now).1 == (limiter.max_messages > 0),
{
    lemma_none_recent(limiter.passed, limiter.window, now);
    lemma_none_recent(seq![], limiter.window, now);
}

proof fn lemma_recent_is_a_part(times: Seq<nat>, window: nat, now: nat)
    ensures
        recent(times, window, now).len() <= times.len(),
    decreases times.len(),
{
    reveal(Seq::filter);
    if times.len() > 0 {
        lemma_recent_is_a_part(times.drop_last(), window, now);
    }
}

proof fn lemma_all_recent(times: Seq<nat>, window: nat, now: nat)
    requires
        forall|i: int| 0 <= i < times.len() ==> #[trigger] within(window, times[i], now),
    ensures
        recent(times, window, now) == times,
    decreases times.len(),
{
    reveal(Seq::filter);
    if times.len() > 0 {
        let shorter = times.drop_last();
        assert forall|i: int| 0 <= i < shorter.len() implies #[trigger] within(
            window,
            shorter[i],
            now,
        ) by {
            assert(within(window, times[i], now));
        }
        lemma_all_recent(shorter, window, now);
        assert(within(window, times[times.len() - 1], now));
        assert(shorter.push(times.last()) =~= times);
    } else {
        assert(recent(times, window, now) =~= times);
    }
}

proof fn lemma_none_recent(times: Seq<nat>, window: nat, now: nat)
    requires
        forall|i: int| 0 <= i < times.len() ==> !#[trigger] within(window, times[i], now),
    ensures
        recent(times, window, now) == Seq::<nat>::empty(),
    decreases times.len(),
{
    reveal(Seq::filter);
    if times.len() > 0 {
        let shorter = times.drop_last();
        assert forall|i: int| 0 <= i < shorter.len() implies !#[trigger] within(
            window,
            shorter[i],
            now,
        ) by {
            assert(!within(window, times[i], now));
        }
        lemma_none_recent(shorter, window, now);
        assert(!within(window, times[times.len() - 1], now));
    } else {
        assert(recent(times, window, now) =~= seq![]);
    }
}

/// Of times in order, the recent ones are the last ones.
proof fn lemma_recent_are_last(times: Seq<nat>, window: nat, now: nat) -> (dropped: int)
    requires
        in_order(times),
    ensures
        0 <= dropped <= times.len(),
        recent(times, window, now) == times.skip(dropped),
        forall|i: int| 0 <= i < dropped ==> !#[trigger] within(window, times[i], now),
    decreases times.len(),
{
    reveal(Seq::filter);
    if times.len() == 0 {
        assert(recent(times, window, now) =~= times.skip(0));
        0
    } else if within(window, times.last(), now) {
        let shorter = times.drop_last();
        let dropped = lemma_recent_are_last(shorter, window, now);
        assert(shorter.skip(dropped).push(times.last()) =~= times.skip(dropped));
        assert forall|i: int| 0 <= i < dropped implies !#[trigger] within(
            window,
            times[i],
            now,
        ) by {
            assert(!within(window, shorter[i], now));
        }
        dropped
    } else {
        assert forall|i: int| 0 <= i < times.len() implies !#[trigger] within(
            window,
            times[i],
            now,
        ) by {
            assert(times[i] <= times[times.len() - 1]);
        }
        lemma_none_recent(times, window, now);
        assert(times.skip(times.len() as int) =~= seq![]);
        times.len() as int
    }
}

/// What ties a limiter to all the messages that it let pass, up to a time: it
/// remembers the last of them, and those that it forgot are not recent.
pub open spec fn remembers(limiter: LimiterView, passed: Seq<nat>, last: nat) -> bool {
    let forgotten = passed.len() - limiter.passed.len();
    &&& in_order(passed)
    &&& forall|i: int| 0 <= i < passed.len() ==> #[trigger] passed[i] <= last
    &&& 0 <= forgotten
    &&& limiter.passed == passed.skip(forgotten)
    &&& forall|i: int| 0 <= i < forgotten ==> !#[trigger] within(limiter.window, passed[i], last)
    &&& limited(passed, limiter.max_messages, limiter.window)
}

/// A limiter that has not been asked for anything remembers nothing.
pub proof fn lemma_remembers_nothing(limiter: LimiterView, last: nat)
    requires
        limiter.passed.len() == 0,
    ensures
        remembers(limiter, seq![], last),
{
    assert(limiter.passed =~= Seq::<nat>::empty().skip(0));
}

/// Time that goes by keeps what ties a limiter to the messages that it let pass.
pub proof fn lemma_time_goes_by(limiter: LimiterView, passed: Seq<nat>, last: nat, now: nat)
    requires
        remembers(limiter, passed, last),
        last <= now,
    ensures
        remembers(limiter, passed, now),
{
    let forgotten = passed.len() - limiter.passed.len();
    assert forall|i: int| 0 <= i < forgotten implies !#[trigger] within(
        limiter.window,
        passed[i],
        now,
    ) by {
        assert(!within(limiter.window, passed[i], last));
    }
}

/// A step keeps what ties a limiter to the messages that it let pass.
pub proof fn lemma_step_remembers(limiter: LimiterView, passed: Seq<nat>, last: nat, now: nat)
    requires
        remembers(limiter, passed, last),
        last <= now,
    ensures
        ({
            let (next, allowed) = limiter_step(limiter, now);
            let all = if allowed {
                passed.push(now)
            } else {
                passed
            };
            remembers(next, all, now)
        }),
{
    let (window, max) = (limiter.window, limiter.max_messages);
    let forgotten = passed.len() - limiter.passed.len();
    let kept = limiter.passed;
    assert forall|i: int, j: int| 0 <= i <= j < kept.len() implies kept[i] <= kept[j] by {
        assert(kept[i] == passed[forgotten + i] && kept[j] == passed[forgotten + j]);
    }
    let dropped = lemma_recent_are_last(kept, window, now);
    let counted = recent(kept, window, now);
    let (next, allowed) = limiter_step(limiter, now);
    let all = if allowed {
        passed.push(now)
    } else {
        passed
    };
    let gone = forgotten + dropped;
    assert(counted =~= passed.skip(gone));
    assert(next.passed =~= all.skip(gone));
    assert forall|i: int| 0 <= i < gone implies !#[trigger] within(window, all[i], now) by {
        if i < forgotten {
            assert(!within(window, passed[i], last));
        } else {
            assert(!within(window, kept[i - forgotten], now));
        }
    }
    assert forall|i: int, j: int|
        0 <= i <= j < all.len() && #[trigger] within(window, all[i], all[j]) implies j - i + 1
        <= max by {
        if j < passed.len() {
            assert(within(window, passed[i], passed[j]));
        } else if i < gone {
            assert(!within(window, all[i], now));
        }
    }
}

proof fn lemma_limiter_run(limiter: LimiterView, times: Seq<nat>)
    requires
        limiter.passed.len() == 0,
        in_order(times),
    ensures
        ({
            let after = limiter_after(limiter, times);
            let last = if times.len() == 0 {
                0
            } else {
                times.last()
            };
            &&& after == (LimiterView { passed: after.passed, ..limiter })
            &&& remembers(after, passed_times(limiter, times), last)
        }),
    decreases times.len(),
{
    if times.len() == 0 {
        lemma_remembers_nothing(limiter, 0);
    } else {
        let shorter = times.drop_last();
        lemma_limiter_run(limiter, shorter);
        let last = if shorter.len() == 0 {
            0
        } else {
            shorter.last()
        };
        lemma_step_remembers(
            limiter_after(limiter, shorter),
            passed_times(limiter, shorter),
            last,
            times.last(),
        );
    }
}

/// After the first messages of a window, the limiter remembers those of them that
/// passed, which are the first ones.
proof fn lemma_first_messages(limiter: LimiterView, times: Seq<nat>, i: int)
    requires
        limiter.passed.len() == 0,
        forall|a: int, b: int|
            0 <= a <= b < times.len() ==> #[trigger] within(limiter.window, times[a], times[b]),
        0 <= i < times.len(),
    ensures
        ({
            let after = limiter_after(limiter, times.take(i));
            &&& after == (LimiterView { passed: after.passed, ..limiter })
            &&& after.passed == times.take(
                if i < limiter.max_messages {
                    i
                } else {
                    limiter.max_messages as int
                },
            )
            &&& forall|k: int|
                0 <= k < after.passed.len() ==> #[trigger] within(
                    limiter.window,
                    after.passed[k],
                    times[i],
                )
        }),
    decreases i,
{
    if i == 0 {
        assert(limiter.passed =~= times.take(0));
    } else {
        lemma_first_messages(limiter, times, i - 1);
        let before = limiter_after(limiter, times.take(i - 1));
        assert(times.take(i).drop_last() =~= times.take(i - 1));
        lemma_all_recent(before.passed, limiter.window, times[i - 1]);
        let after = limiter_after(limiter, times.take(i));
        if i <= limiter.max_messages {
            assert(after.passed =~= times.take(i));
        }
        assert forall|k: int| 0 <= k < after.passed.len() implies #[trigger] within(
            limiter.window,
            after.passed[k],
            times[i],
        ) by {
            assert(within(limiter.window, times[k], times[i]));
        }
    }
}

/// Whether a message may pass is decided by those that are remembered and passed no
/// longer than a window ago, and by their number alone; they are what is remembered
/// next, with the message itself if it passes.
pub proof fn what_passed_lately_decides(limiter: LimiterView, now: nat)
    ensures
        ({
            let lately = limiter.passed.filter(|time: nat| now - time <= limiter.window);
            let (next, allowed) = limiter_step(limiter, now);
            &&& allowed <==> lately.len() < limiter.max_messages
            &&& allowed ==> next.passed == lately.push(now)
            &&& !allowed ==> next.passed == lately
            &&& next.max_messages == limiter.max_messages
            &&& next.window == limiter.window
        }),
{
    let lately = |time: nat| now - time <= limiter.window;
    assert((|time: nat| within(limiter.window, time, now)) =~= lately);
}

/// A message is refused only where as many as may pass have passed within a window
/// of it, and is never let through there: of messages that are asked for in order,
/// each passes if and only if fewer than `max_messages` of those that passed before
/// it did so no longer than a window ago.
pub proof fn a_message_is_refused_only_at_the_limit(
    limiter: LimiterView,
    times: Seq<nat>,
    i: int,
)
    requires
        limiter.passed.len() == 0,
        forall|a: int, b: int| 0 <= a <= b < times.len() ==> times[a] <= times[b],
        0 <= i < times.len(),
    ensures
        passes(limiter, times, i) <==> passed_times(limiter, times.take(i)).filter(
            |time: nat| times[i] - time <= limiter.window,
        ).len() < limiter.max_messages,
        i < limiter.max_messages ==> passes(limiter, times, i),
        i >= limiter.max_messages && times[i] - times[i - limiter.max_messages as int]
            > limiter.window ==> passes(limiter, times, i),
{
    let before = times.take(i);
    let now = times[i];
    let passed = passed_times(limiter, before);
    lemma_limiter_run(limiter, before);
    lemma_passed_are_asked_for(limiter, before);
    let after = limiter_after(limiter, before);
    let last = if i == 0 {
        0
    } else {
        before.last()
    };
    lemma_time_goes_by(after, passed, last, now);
    lemma_recent_of_all(after, passed, now);
    what_passed_lately_decides(after, now);
    let lately = |time: nat| now - time <= limiter.window;
    passed.lemma_filter_len(lately);
    if i >= limiter.max_messages && now - times[i - limiter.max_messages as int]
        > limiter.window {
        lemma_few_since(limiter, before, now, i - limiter.max_messages as int);
    }
}

/// No more messages pass than are asked for.
proof fn lemma_passed_are_asked_for(limiter: LimiterView, times: Seq<nat>)
    ensures
        passed_times(limiter, times).len() <= times.len(),
    decreases times.len(),
{
    if times.len() > 0 {
        lemma_passed_are_asked_for(limiter, times.drop_last());
    }
}

/// No more messages passed lately than were asked for since the last that was not.
proof fn lemma_few_since(limiter: LimiterView, times: Seq<nat>, now: nat, k: int)
    requires
        forall|a: int, b: int| 0 <= a <= b < times.len() ==> times[a] <= times[b],
        0 <= k < times.len(),
        now - times[k] > limiter.window,
    ensures
        passed_times(limiter, times).filter(|time: nat| now - time <= limiter.window).len()
            < times.len() - k,
    decreases times.len(),
{
    reveal(Seq::filter);
    let lately = |time: nat| now - time <= limiter.window;
    let shorter = times.drop_last();
    let before = passed_times(limiter, shorter);
    let passed = passed_times(limiter, times);
    if k < shorter.len() {
        lemma_few_since(limiter, shorter, now, k);
        if passed != before {
            assert(passed.drop_last() =~= before);
        }
    } else {
        lemma_none_since(limiter, times, now);
    }
}

proof fn lemma_none_since(limiter: LimiterView, times: Seq<nat>, now: nat)
    requires
        forall|a: int, b: int| 0 <= a <= b < times.len() ==> times[a] <= times[b],
        times.len() > 0 ==> now - times.last() > limiter.window,
    ensures
        passed_times(limiter, times).filter(|time: nat| now - time <= limiter.window).len() == 0,
    decreases times.len(),
{
    reveal(Seq::filter);
    if times.len() > 0 {
        let shorter = times.drop_last();
        lemma_none_since(limiter, shorter, now);
        let before = passed_times(limiter, shorter);
        let passed = passed_times(limiter, times);
        if passed != before {
            assert(passed.drop_last() =~= before);
        }
    }
}

/// Of all messages that passed, those that did lately are among the ones that the
/// limiter remembers.
pub proof fn lemma_recent_of_all(limiter: LimiterView, passed: Seq<nat>, now: nat)
    requires
        remembers(limiter, passed, now),
    ensures
        passed.filter(|time: nat| now - time <= limiter.window) == limiter.passed.filter(
            |time: nat| now - time <= limiter.window,
        ),
{
    let lately = |time: nat| now - time <= limiter.window;
    assert((|time: nat| within(limiter.window, time, now)) =~= lately);
    let forgotten = passed.len() - limiter.passed.len();
    let old = passed.take(forgotten);
    assert forall|i: int| 0 <= i < old.len() implies !#[trigger] within(
        limiter.window,
        old[i],
        now,
    ) by {
        assert(!within(limiter.window, passed[i], now));
    }
    lemma_none_recent(old, limiter.window, now);
    assert(old + limiter.passed =~= passed);
    Seq::filter_distributes_over_add(old, limiter.passed, lately);
    assert(Seq::<nat>::empty() + limiter.passed.filter(lately) =~= limiter.passed.filter(lately));
}

/// The clock shows the whole time that has passed since an instant, in nanoseconds,
/// and nothing else.
pub proof fn the_clock_shows_the_time_that_has_passed(
    since: Instant,
    elapsed: Duration,
    nanos: nat,
)
    ensures
        is_elapsed(since, elapsed) ==> is_reading(since, duration_nanos(elapsed)),
        is_reading(since, nanos) ==> exists|passed: Duration| #[trigger]
            is_elapsed(since, passed) && duration_nanos(passed) == nanos,
{
}

} // verus!
