use open_conv::sync::{coalesce, SyncControl, SyncDecision, ToWorker, WorkerControl};

#[test]
fn changes_wait_for_the_debounce_window() {
    let mut c = SyncControl::new(0, 100);
    // Nothing changed: hold.
    assert_eq!(c.step(0, false, false), SyncDecision::Hold);
    // A bank change inside the window is held, but stays marked.
    assert_eq!(c.step(1, false, false), SyncDecision::Hold);
    c.advance(60);
    assert_eq!(c.step(1, false, false), SyncDecision::Hold);
    c.advance(60);
    // Window passed: sent with a new load generation.
    assert_eq!(c.step(1, false, false), SyncDecision::Send { bank: 1, load_gen: 1 });
    assert_eq!(c.load_generation(), 1);
    // Sent: nothing left to do.
    c.advance(500);
    assert_eq!(c.step(1, false, false), SyncDecision::Hold);
}

#[test]
fn mark_survives_a_bank_flip_back() {
    let mut c = SyncControl::new(0, 10);
    assert_eq!(c.step(2, false, false), SyncDecision::Hold);
    c.advance(10);
    // The bank flipped back before the window passed: the reload still
    // happens (deferred, never dropped).
    assert_eq!(c.step(0, false, false), SyncDecision::Send { bank: 0, load_gen: 1 });
}

#[test]
fn size_changes_send_without_reload() {
    let mut c = SyncControl::new(3, 0);
    assert_eq!(c.step(3, false, true), SyncDecision::Send { bank: 3, load_gen: 0 });
    assert_eq!(c.step(3, false, true), SyncDecision::Send { bank: 3, load_gen: 0 });
    assert_eq!(c.load_generation(), 0);
}

#[test]
fn reload_acts_on_rising_edges() {
    let mut c = SyncControl::new(0, 0);
    assert_eq!(c.step(0, true, false), SyncDecision::Send { bank: 0, load_gen: 1 });
    // Held on: no new edge.
    assert_eq!(c.step(0, true, false), SyncDecision::Hold);
    assert_eq!(c.step(0, false, false), SyncDecision::Hold);
    assert_eq!(c.step(0, true, false), SyncDecision::Send { bank: 0, load_gen: 2 });
}

#[test]
fn sample_count_saturates() {
    let mut c = SyncControl::new(0, usize::MAX);
    c.advance(usize::MAX);
    c.advance(5);
    assert_eq!(c.step(1, false, false), SyncDecision::Send { bank: 1, load_gen: 1 });
}

#[test]
fn worker_keeps_only_the_newest_snapshot() {
    let msgs: Vec<ToWorker<u32, &str>> = vec![
        ToWorker::Sync(1),
        ToWorker::Dispose("a"),
        ToWorker::Sync(2),
        ToWorker::Dispose("b"),
        ToWorker::Dispose("c"),
    ];
    let (latest, spent) = coalesce(msgs);
    assert_eq!(latest, Some(2));
    assert_eq!(spent, vec!["a", "b", "c"]);
    let (latest, spent) = coalesce(vec![ToWorker::<u32, u8>::Dispose(9)]);
    assert_eq!(latest, None);
    assert_eq!(spent, vec![9]);
    let (latest, spent) = coalesce(Vec::<ToWorker<u32, u8>>::new());
    assert_eq!(latest, None);
    assert!(spent.is_empty());
}

#[test]
fn worker_reloads_on_new_generations_only() {
    let mut w = WorkerControl::new();
    assert!(w.take_sync(0));
    assert!(!w.take_sync(0));
    assert!(w.take_sync(1));
    assert!(!w.take_sync(1));
}
