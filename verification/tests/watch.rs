use miniblog::site::xml_escape;
use miniblog::watch::{watch_step, WatchAction, WatchEvent, WatchPhase, REINDEX_INTERVAL_SECS, SETTLE_MILLIS};

fn run(events: &[WatchEvent]) -> Vec<WatchAction> {
    let mut phase = WatchPhase::Idle;
    let mut actions = Vec::new();
    for event in events {
        let (next, action) = watch_step(phase, *event);
        phase = next;
        actions.push(action);
    }
    actions
}

#[test]
fn watcher_settles_a_burst_into_one_reindex() {
    let actions = run(&[WatchEvent::Changed, WatchEvent::Changed, WatchEvent::Changed, WatchEvent::Quiet]);
    assert_eq!(actions.len(), 4);
    assert!(actions[..3].iter().all(|a| matches!(a, WatchAction::AwaitQuiet(300))));
    assert!(matches!(actions[3], WatchAction::Reindex));
    assert_eq!(actions.iter().filter(|a| matches!(a, WatchAction::Reindex)).count(), 1);
}

#[test]
fn watcher_reindexes_pending_change_before_stopping() {
    let actions = run(&[WatchEvent::Changed, WatchEvent::Closed, WatchEvent::Closed]);
    assert!(matches!(actions[0], WatchAction::AwaitQuiet(300)));
    assert!(matches!(actions[1], WatchAction::Reindex));
    assert!(matches!(actions[2], WatchAction::Stop));
}

#[test]
fn watcher_idles_without_changes() {
    let actions = run(&[WatchEvent::Quiet, WatchEvent::Quiet]);
    assert!(actions.iter().all(|a| matches!(a, WatchAction::AwaitChange)));
    assert!(matches!(watch_step(WatchPhase::Idle, WatchEvent::Closed).1, WatchAction::Stop));
}

#[test]
fn watch_timings() {
    assert_eq!(SETTLE_MILLIS, 300);
    assert_eq!(REINDEX_INTERVAL_SECS, 18_000);
}

#[test]
fn xml_escape_undoes_by_unescaping() {
    let s = "Tom & Jerry <3> &amp;";
    let e = xml_escape(s);
    assert_eq!(e, "Tom &amp; Jerry &lt;3&gt; &amp;amp;");
    assert!(!e.contains('<') && !e.contains('>'));
    assert_eq!(e.replace("&lt;", "<").replace("&gt;", ">").replace("&amp;", "&"), s);
    assert_eq!(xml_escape("no markup here"), "no markup here");
}
