use saucebottle::models::AppConfig;
use saucebottle::queue::{
    drops_while_paused,
    count_images, import_action, queued_summary, require_services, timed_out_message, wait_step,
    DropEntry, FileProbe, ImportAction, QueueTracker, WaitStep,
};

fn owned(v: &[&str]) -> Vec<String> {
    v.iter().map(|s| s.to_string()).collect()
}

fn probe(writable: bool, denied: bool, read_only: bool, readable: bool) -> FileProbe {
    FileProbe { writable, permission_denied: denied, read_only, readable }
}

#[test]
fn tracker_queues_each_file_once() {
    let mut t = QueueTracker::new();
    assert!(t.insert("/in/a.png".to_string()));
    assert!(!t.insert("/in/a.png".to_string()));
    assert!(t.insert("/in/b.png".to_string()));
    assert_eq!(t.len(), 2);
    assert!(t.contains("/in/a.png"));
    assert!(t.remove("/in/a.png"));
    assert!(!t.remove("/in/a.png"));
    assert!(!t.contains("/in/a.png"));
    assert!(t.insert("/in/a.png".to_string()));
    assert_eq!(t.len(), 2);
}

#[test]
fn waiting_for_files() {
    assert_eq!(wait_step(&probe(true, false, false, false), true), WaitStep::Ready);
    assert_eq!(wait_step(&probe(false, true, true, true), false), WaitStep::Ready);
    assert_eq!(wait_step(&probe(false, true, true, false), false), WaitStep::Retry);
    assert_eq!(wait_step(&probe(false, false, true, true), false), WaitStep::Retry);
    assert_eq!(wait_step(&probe(false, true, false, true), true), WaitStep::TimedOut);
    assert_eq!(timed_out_message(), "Timed out waiting for file to finish writing to disk.");
}

#[test]
fn services_are_required() {
    assert_eq!(require_services(&owned(&["Yande.re"])), Ok(()));
    assert_eq!(
        require_services(&Vec::new()),
        Err("No active API credentials configured. Please add keys in the Credentials tab.".to_string())
    );
}

#[test]
fn import_limits() {
    let file = DropEntry::File { name: "a.PNG".to_string() };
    assert_eq!(
        import_action(6, 0, &file),
        Err("Folder hierarchy too deep! Stopped at depth 5.".to_string())
    );
    assert_eq!(
        import_action(5, 5000, &file),
        Err("Safety limit reached: Cannot import more than 5000 files at once.".to_string())
    );
    assert_eq!(import_action(0, 0, &file), Ok(ImportAction::Place { move_original: true }));
    assert_eq!(import_action(5, 4999, &file), Ok(ImportAction::Place { move_original: false }));
    let text = DropEntry::File { name: "notes.txt".to_string() };
    assert_eq!(import_action(1, 0, &text), Ok(ImportAction::Skip));
    assert_eq!(import_action(1, 0, &DropEntry::Folder { is_root: false }), Ok(ImportAction::Descend));
    assert_eq!(
        import_action(0, 0, &DropEntry::Folder { is_root: true }),
        Err("For safety, dropping an entire root drive is not allowed.".to_string())
    );
    assert_eq!(import_action(0, 0, &DropEntry::Other), Ok(ImportAction::Skip));
}

#[test]
fn drop_summary() {
    assert_eq!(queued_summary(0), "Successfully queued 0 images.");
    assert_eq!(queued_summary(42), "Successfully queued 42 images.");
}

#[test]
fn counting_waiting_images() {
    assert_eq!(count_images(&owned(&["a.png", "b.txt", "c.JPEG", ".gif", "d"])), 2);
    assert_eq!(count_images(&Vec::new()), 0);
}

#[test]
fn paused_scanning() {
    let mut c = AppConfig::default();
    assert!(!drops_while_paused(&c));
    for f in c.flags.iter_mut() {
        if f.0 == "isPermanentScan" {
            f.1 = false;
        }
    }
    assert!(drops_while_paused(&c));
}
