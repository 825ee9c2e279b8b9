use drainpipe::config::{Config, ConfigData, DownloadFilter};
use drainpipe::daemon::{counts_as_stored, FileEvent, Reload, State};
use drainpipe::error::Error;
use drainpipe::media::MediaEntry;
use drainpipe::source::{Source, SourceType, Sources};
use drainpipe::time::Timestamp;

fn entry(link: &str) -> MediaEntry {
    MediaEntry { title: None, link: link.to_string(), published: None, kind: SourceType::Video }
}

fn dated(link: &str, secs: i64) -> MediaEntry {
    MediaEntry {
        title: Some(format!("title of {link}")),
        link: link.to_string(),
        published: Some(Timestamp { secs, nanos: 0 }),
        kind: SourceType::Audio,
    }
}

fn state(parallel: u64) -> State<usize> {
    let mut data = ConfigData::with_media_dir("/media".to_string());
    data.parallel_downloads = parallel;
    let config = Config::load("/etc/config.yaml".to_string(), false, Ok(data)).unwrap();
    let sources = Sources::load("/etc/sources.yaml".to_string(), Ok(Vec::new())).unwrap();
    State::new(config, sources)
}

fn queue_links(state: &State<usize>) -> Vec<String> {
    state.dl_queue.iter().map(|e| e.link.clone()).collect()
}

fn running_links(state: &State<usize>) -> Vec<String> {
    state.dl_tasks.iter().map(|(e, _)| e.link.clone()).collect()
}

#[test]
fn new_state_is_empty() {
    let s = state(3);
    assert!(s.dl_queue.is_empty());
    assert!(s.dl_tasks.is_empty());
    assert_eq!(s.config.data.parallel_downloads, 3);
}

#[test]
fn admission_is_first_in_first_out() {
    let mut s = state(1);
    s.enqueue(vec![entry("A"), entry("B"), entry("C")], &Vec::new());
    let mut order = Vec::new();
    for _ in 0..3 {
        s.start_downloads(|e| e.link.len());
        assert_eq!(s.dl_tasks.len(), 1);
        order.push(s.dl_tasks[0].0.link.clone());
        let done = s.reap(&vec![true]);
        assert_eq!(done.len(), 1);
        assert!(s.dl_tasks.is_empty());
    }
    assert_eq!(order, vec!["A", "B", "C"]);
    assert!(s.dl_queue.is_empty());
}

#[test]
fn admission_fills_the_free_slots_in_queue_order() {
    let mut s = state(2);
    s.enqueue(vec![entry("A"), entry("B"), entry("C")], &Vec::new());
    s.start_downloads(|e| e.link.len() + 10);
    assert_eq!(running_links(&s), vec!["A", "B"]);
    assert_eq!(s.dl_tasks[0].1, 11);
    assert_eq!(queue_links(&s), vec!["C"]);
    s.start_downloads(|_| 0);
    assert_eq!(running_links(&s), vec!["A", "B"]);
    assert_eq!(queue_links(&s), vec!["C"]);
}

#[test]
fn running_downloads_never_exceed_the_limit() {
    let mut s = state(2);
    let found: Vec<MediaEntry> = (0..7).map(|i| entry(&format!("https://x/{i}"))).collect();
    s.enqueue(found, &Vec::new());
    let mut finished = 0;
    while !s.dl_queue.is_empty() || !s.dl_tasks.is_empty() {
        s.start_downloads(|_| 0);
        assert!(s.dl_tasks.len() <= 2);
        let flags: Vec<bool> = (0..s.dl_tasks.len()).map(|i| i == 0).collect();
        finished += s.reap(&flags).len();
    }
    assert_eq!(finished, 7);
}

#[test]
fn a_lowered_limit_starts_nothing_and_stops_nothing() {
    let mut s = state(3);
    s.enqueue(vec![entry("A"), entry("B"), entry("C"), entry("D")], &Vec::new());
    s.start_downloads(|_| 0);
    assert_eq!(s.dl_tasks.len(), 3);
    s.config.data.parallel_downloads = 1;
    s.start_downloads(|_| 0);
    assert_eq!(running_links(&s), vec!["A", "B", "C"]);
    assert_eq!(queue_links(&s), vec!["D"]);
}

#[test]
fn a_limit_of_zero_starts_nothing() {
    let mut s = state(0);
    s.enqueue(vec![entry("A")], &Vec::new());
    s.start_downloads(|_| 0);
    assert!(s.dl_tasks.is_empty());
    assert_eq!(queue_links(&s), vec!["A"]);
}

#[test]
fn the_same_item_is_queued_once() {
    let mut s = state(1);
    s.enqueue(vec![entry("https://x/1")], &Vec::new());
    assert_eq!(s.dl_queue.len(), 1);
    s.enqueue(vec![entry("https://x/1")], &Vec::new());
    assert_eq!(s.dl_queue.len(), 1);
}

#[test]
fn an_item_found_twice_in_one_crawl_is_queued_once() {
    let mut s = state(1);
    s.enqueue(vec![entry("a"), dated("a", 5), entry("b"), entry("a")], &Vec::new());
    assert_eq!(queue_links(&s), vec!["a", "b"]);
    assert!(s.dl_queue[0].title.is_none());
}

#[test]
fn an_item_being_downloaded_is_not_queued_again() {
    let mut s = state(1);
    s.enqueue(vec![entry("https://x/1")], &Vec::new());
    s.start_downloads(|_| 7);
    assert!(s.dl_queue.is_empty());
    s.enqueue(vec![entry("https://x/1"), entry("https://x/2")], &Vec::new());
    assert_eq!(queue_links(&s), vec!["https://x/2"]);
    assert_eq!(running_links(&s), vec!["https://x/1"]);
}

#[test]
fn an_item_in_the_library_is_not_queued() {
    let mut s = state(1);
    let stored = vec!["https://x/2".to_string()];
    s.enqueue(vec![entry("https://x/1"), entry("https://x/2"), entry("https://x/3")], &stored);
    assert_eq!(queue_links(&s), vec!["https://x/1", "https://x/3"]);
}

#[test]
fn holds_tells_queued_and_running_links() {
    let mut s = state(1);
    s.enqueue(vec![entry("a"), entry("b")], &Vec::new());
    s.start_downloads(|_| 0);
    assert!(s.holds(&"a".to_string()));
    assert!(s.holds(&"b".to_string()));
    assert!(!s.holds(&"c".to_string()));
}

#[test]
fn reap_keeps_the_unfinished_in_order_and_returns_the_finished_last_first() {
    let mut s = state(5);
    s.enqueue(vec![entry("a"), entry("b"), entry("c"), entry("d"), entry("e")], &Vec::new());
    s.start_downloads(|e| e.link.as_bytes()[0] as usize);
    let done = s.reap(&vec![true, false, true, false, true]);
    let done_links: Vec<&str> = done.iter().map(|(e, _)| e.link.as_str()).collect();
    assert_eq!(done_links, vec!["e", "c", "a"]);
    assert_eq!(done[0].1, b'e' as usize);
    assert_eq!(running_links(&s), vec!["b", "d"]);
    assert_eq!(s.dl_tasks[1].1, b'd' as usize);
}

#[test]
fn reap_treats_missing_flags_as_running_and_ignores_extra_ones() {
    let mut s = state(3);
    s.enqueue(vec![entry("a"), entry("b"), entry("c")], &Vec::new());
    s.start_downloads(|_| 0);
    let done = s.reap(&vec![false, true]);
    assert_eq!(done.len(), 1);
    assert_eq!(done[0].0.link, "b");
    assert_eq!(running_links(&s), vec!["a", "c"]);
    let done = s.reap(&vec![false, false, true, true]);
    assert!(done.is_empty());
    assert_eq!(running_links(&s), vec!["a", "c"]);
    let done = s.reap(&Vec::new());
    assert!(done.is_empty());
}

#[test]
fn a_reaped_item_may_be_queued_again_unless_stored() {
    let mut s = state(1);
    s.enqueue(vec![entry("a")], &Vec::new());
    s.start_downloads(|_| 0);
    s.reap(&vec![true]);
    s.enqueue(vec![entry("a")], &vec!["a".to_string()]);
    assert!(s.dl_queue.is_empty());
    s.enqueue(vec![entry("a")], &Vec::new());
    assert_eq!(queue_links(&s), vec!["a"]);
}

#[test]
fn filter_entries_at_drops_what_the_filter_excludes() {
    let mut s = state(1);
    s.config.data.download_filter =
        Some(DownloadFilter { max_age: Some(100), before: None, after: None });
    let now = Timestamp { secs: 1_000, nanos: 0 };
    let found = vec![dated("old", 899), dated("edge", 900), entry("undated"), dated("new", 990)];
    let fresh = s.filter_entries_at(found, now);
    let links: Vec<&str> = fresh.iter().map(|e| e.link.as_str()).collect();
    assert_eq!(links, vec!["edge", "undated", "new"]);
    let again = s.filter_entries_at(fresh, now);
    assert_eq!(again.len(), 3);
}

#[test]
fn without_a_filter_every_entry_is_kept() {
    let mut s = state(1);
    s.config.data.download_filter = None;
    let fresh = s.filter_entries(vec![dated("old", i64::MIN), dated("new", i64::MAX)]);
    assert_eq!(fresh.len(), 2);
    assert_eq!(fresh[0].link, "old");
}

#[test]
fn filter_entries_by_the_clock_keeps_undated_and_drops_ancient() {
    let s = state(1);
    let fresh = s.filter_entries(vec![dated("ancient", 0), entry("undated")]);
    assert_eq!(fresh.len(), 1);
    assert_eq!(fresh[0].link, "undated");
}

#[test]
fn sync_is_due_when_there_was_none_yet() {
    let mut s = state(1);
    assert!(s.sync_due(false, None));
}

#[test]
fn sync_is_due_only_after_more_than_the_interval() {
    let mut s = state(1);
    s.config.data.sync_interval = 900;
    assert!(!s.sync_due(false, Some(0)));
    assert!(!s.sync_due(false, Some(900)));
    assert!(s.sync_due(false, Some(901)));
}

#[test]
fn no_sync_starts_while_one_runs() {
    let mut s = state(1);
    assert!(!s.sync_due(true, None));
    assert!(!s.sync_due(true, Some(1_000_000)));
    s.sources.set(vec![], Ok(())).unwrap();
    assert!(!s.sync_due(true, Some(0)));
    assert!(s.sync_due(false, Some(0)));
}

#[test]
fn changed_sources_trigger_one_sync() {
    let mut s = state(1);
    let list = vec![Source { url: "feed1".to_string(), kind: SourceType::Video }];
    s.sources.set(list, Ok(())).unwrap();
    assert!(s.sync_due(false, Some(1)));
    assert!(!s.sync_due(false, Some(2)));
}

#[test]
fn a_sync_by_the_timer_leaves_the_changed_flag_up() {
    let mut s = state(1);
    s.sources.set(vec![], Ok(())).unwrap();
    assert!(s.sync_due(false, None));
    assert!(s.sources.changed());
}

#[test]
fn file_events_name_what_to_reload() {
    let s = state(1);
    let event = |access: bool, paths: &[&str]| FileEvent {
        access,
        paths: paths.iter().map(|p| p.to_string()).collect(),
    };
    assert_eq!(s.reload_for(&event(false, &["/etc/config.yaml"])), Reload::Config);
    assert_eq!(s.reload_for(&event(false, &["/etc/sources.yaml"])), Reload::Sources);
    assert_eq!(
        s.reload_for(&event(false, &["/etc/sources.yaml", "/etc/config.yaml"])),
        Reload::Config
    );
    assert_eq!(s.reload_for(&event(false, &["/etc/other.yaml"])), Reload::Nothing);
    assert_eq!(s.reload_for(&event(false, &[])), Reload::Nothing);
    assert_eq!(s.reload_for(&event(true, &["/etc/config.yaml"])), Reload::Nothing);
    assert_eq!(s.reload_for(&event(true, &["/etc/sources.yaml"])), Reload::Nothing);
}

#[test]
fn a_failed_config_reload_keeps_the_settings() {
    let mut s = state(4);
    let r = s.config.reload(Err(Error::Yaml("bad".to_string())));
    assert!(matches!(r, Err(Error::Yaml(m)) if m == "bad"));
    assert_eq!(s.config.data.parallel_downloads, 4);
}

#[test]
fn only_a_clear_no_lets_an_item_into_the_queue() {
    assert!(!counts_as_stored(&Ok(false)));
    assert!(counts_as_stored(&Ok(true)));
    assert!(counts_as_stored(&Err(Error::Sqlite("locked".to_string()))));
}
