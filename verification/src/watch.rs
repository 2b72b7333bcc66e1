use vstd::prelude::*;

verus! {

/// How long the scheduled reindex waits between rebuilds: five hours.
pub const REINDEX_INTERVAL_SECS: u64 = 5 * 60 * 60;

/// How long the content watcher waits for the filesystem to go quiet.
pub const SETTLE_MILLIS: u64 = 300;

/// Where the content watcher is: waiting for a first change, or letting a
/// burst of changes settle.
#[derive(Debug, Clone, Copy)]
pub enum WatchPhase {
    Idle,
    Settling,
}

/// What the watcher observed: a filesystem change, a quiet period with no
/// change, or the end of the change stream.
#[derive(Debug, Clone, Copy)]
pub enum WatchEvent {
    Changed,
    Quiet,
    Closed,
}

/// What the watcher does next: block until a change, wait up to the given
/// milliseconds for another change, rebuild the index, or stop.
#[derive(Debug, Clone, Copy)]
pub enum WatchAction {
    AwaitChange,
    AwaitQuiet(u64),
    Reindex,
    Stop,
}

/// One step of the content watcher, as a mathematical function.
pub open spec fn step(phase: WatchPhase, event: WatchEvent) -> (WatchPhase, WatchAction) {
    match event {
        WatchEvent::Changed => (WatchPhase::Settling, WatchAction::AwaitQuiet(SETTLE_MILLIS)),
        _ => match phase {
            WatchPhase::Settling => (WatchPhase::Idle, WatchAction::Reindex),
            WatchPhase::Idle => if event is Closed {
                (WatchPhase::Idle, WatchAction::Stop)
            } else {
                (WatchPhase::Idle, WatchAction::AwaitChange)
            },
        },
    }
}

/// One step of the content watcher. A change starts (or extends) a settling
/// period of 300 ms; the end of a settling period, by quiet or by the stream
/// closing, triggers one reindex; a closed stream while idle stops the watcher.
pub fn watch_step(phase: WatchPhase, event: WatchEvent) -> (r: (WatchPhase, WatchAction))
    ensures
        event is Changed ==> r == (WatchPhase::Settling, WatchAction::AwaitQuiet(SETTLE_MILLIS)),
        phase is Settling && !(event is Changed) ==> r == (WatchPhase::Idle, WatchAction::Reindex),
        phase is Idle && event is Closed ==> r == (WatchPhase::Idle, WatchAction::Stop),
        phase is Idle && event is Quiet ==> r == (WatchPhase::Idle, WatchAction::AwaitChange),
        r == step(phase, event),
{
    match (phase, event) {
        (_, WatchEvent::Changed) => (WatchPhase::Settling, WatchAction::AwaitQuiet(SETTLE_MILLIS)),
        (WatchPhase::Settling, _) => (WatchPhase::Idle, WatchAction::Reindex),
        (WatchPhase::Idle, WatchEvent::Closed) => (WatchPhase::Idle, WatchAction::Stop),
        (WatchPhase::Idle, WatchEvent::Quiet) => (WatchPhase::Idle, WatchAction::AwaitChange),
    }
}

/// The actions the watcher takes for a run of events, starting in `phase`.
pub open spec fn run_actions(phase: WatchPhase, events: Seq<WatchEvent>) -> Seq<WatchAction>
    decreases events.len(),
{
    if events.len() == 0 {
        Seq::empty()
    } else {
        let (next, action) = step(phase, events[0]);
        seq![action] + run_actions(next, events.drop_first())
    }
}

/// How many of `actions` are reindexes.
pub open spec fn reindex_count(actions: Seq<WatchAction>) -> nat
    decreases actions.len(),
{
    if actions.len() == 0 {
        0
    } else {
        (if actions[0] is Reindex { 1nat } else { 0nat }) + reindex_count(actions.drop_first())
    }
}

/// `n` changes followed by one event that is not a change.
pub open spec fn burst(n: nat, last: WatchEvent) -> Seq<WatchEvent> {
    Seq::new(n, |i: int| WatchEvent::Changed).push(last)
}

proof fn lemma_burst_settling(n: nat, last: WatchEvent)
    requires
        !(last is Changed),
    ensures
        run_actions(WatchPhase::Settling, burst(n, last)) == Seq::new(n, |i: int| WatchAction::AwaitQuiet(SETTLE_MILLIS)).push(
            WatchAction::Reindex,
        ),
        reindex_count(run_actions(WatchPhase::Settling, burst(n, last))) == 1,
    decreases n,
{
    let evs = burst(n, last);
    if n == 0 {
        assert(evs[0] == last);
        assert(evs.drop_first() =~= Seq::<WatchEvent>::empty());
        assert(run_actions(WatchPhase::Idle, evs.drop_first()) =~= Seq::<WatchAction>::empty());
        assert(run_actions(WatchPhase::Settling, evs) =~= seq![WatchAction::Reindex]);
        assert(seq![WatchAction::Reindex].drop_first() =~= Seq::<WatchAction>::empty());
        assert(reindex_count(Seq::<WatchAction>::empty()) == 0);
        assert(Seq::new(0, |i: int| WatchAction::AwaitQuiet(SETTLE_MILLIS)).push(WatchAction::Reindex) =~= seq![
            WatchAction::Reindex,
        ]);
    } else {
        lemma_burst_settling((n - 1) as nat, last);
        assert(evs.drop_first() =~= burst((n - 1) as nat, last));
        assert(evs[0] is Changed);
        let rest = run_actions(WatchPhase::Settling, burst((n - 1) as nat, last));
        assert(run_actions(WatchPhase::Settling, evs) =~= seq![WatchAction::AwaitQuiet(SETTLE_MILLIS)] + rest);
        assert(seq![WatchAction::AwaitQuiet(SETTLE_MILLIS)] + rest =~= Seq::new(
            n,
            |i: int| WatchAction::AwaitQuiet(SETTLE_MILLIS),
        ).push(WatchAction::Reindex));
        assert((seq![WatchAction::AwaitQuiet(SETTLE_MILLIS)] + rest).drop_first() =~= rest);
    }
}

/// One edit, one reindex: from idle, a burst of one or more changes followed
/// by a quiet period (or the end of the stream) makes the watcher wait out
/// each change and then reindex exactly once, as its last action.
pub proof fn lemma_burst_reindexes_once(n: nat, last: WatchEvent)
    requires
        n >= 1,
        !(last is Changed),
    ensures
        reindex_count(run_actions(WatchPhase::Idle, burst(n, last))) == 1,
        run_actions(WatchPhase::Idle, burst(n, last)).last() is Reindex,
        run_actions(WatchPhase::Idle, burst(n, last)).len() == n + 1,
{
    let evs = burst(n, last);
    lemma_burst_settling((n - 1) as nat, last);
    assert(evs.drop_first() =~= burst((n - 1) as nat, last));
    let rest = run_actions(WatchPhase::Settling, burst((n - 1) as nat, last));
    assert(evs[0] is Changed);
    assert(run_actions(WatchPhase::Idle, evs) =~= seq![WatchAction::AwaitQuiet(SETTLE_MILLIS)] + rest);
    assert((seq![WatchAction::AwaitQuiet(SETTLE_MILLIS)] + rest).drop_first() =~= rest);
}

/// No change, no reindex: while idle, quiet periods never rebuild the index.
pub proof fn lemma_idle_quiet_never_reindexes(n: nat)
    ensures
        reindex_count(run_actions(WatchPhase::Idle, Seq::new(n, |i: int| WatchEvent::Quiet))) == 0,
    decreases n,
{
    if n > 0 {
        let evs = Seq::new(n, |i: int| WatchEvent::Quiet);
        lemma_idle_quiet_never_reindexes((n - 1) as nat);
        assert(evs.drop_first() =~= Seq::new((n - 1) as nat, |i: int| WatchEvent::Quiet));
        let rest = run_actions(WatchPhase::Idle, evs.drop_first());
        assert((seq![WatchAction::AwaitChange] + rest).drop_first() =~= rest);
    }
}

} // verus!
