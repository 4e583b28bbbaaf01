use scrubarr::classify::{classify_messages, Disposition};
use scrubarr::cycle::{plan_cycle, triage, FetchError, Triage};
use scrubarr::queue::{DedupKey, QueueItem, StatusMessage};

const TBA: &str = "Episode has a TBA title and recently aired";
const NOT_UPGRADE: &str = "Not an upgrade for existing episode file(s)";
const NOT_CF_UPGRADE: &str = "Not a Custom Format upgrade for existing episode file(s)";

fn entry(title: Option<&str>, messages: &[&str]) -> StatusMessage {
    StatusMessage {
        title: title.map(String::from),
        messages: messages.iter().map(|m| m.to_string()).collect(),
    }
}

fn item(
    id: i32,
    series_id: Option<i32>,
    episode_id: Option<i32>,
    score: i32,
    status_messages: Vec<StatusMessage>,
) -> QueueItem {
    QueueItem {
        id,
        series_id,
        episode_id,
        series: None,
        status_messages,
        quality_score: score,
    }
}

fn key(series_id: i32, episode_id: i32) -> DedupKey {
    DedupKey { series_id, episode_id }
}

#[test]
fn lower_score_first_is_superseded_by_higher() {
    let a = item(1, Some(10), Some(100), 5, vec![]);
    let b = item(2, Some(10), Some(100), 9, vec![]);
    let mut state = Triage::new();
    assert_eq!(state.take_item(&a), Disposition::Ignore);
    assert_eq!(state.take_item(&b), Disposition::Ignore);
    assert_eq!(state.leader(key(10, 100)), Some((2, 9)));
    let plan = state.finish();
    assert_eq!(plan.delete, vec![1]);
    assert!(plan.refresh.is_empty());

    let plan = triage(&vec![a, b]);
    assert_eq!(plan.delete, vec![1]);
}

#[test]
fn higher_score_first_supersedes_later_lower() {
    let a = item(1, Some(10), Some(100), 9, vec![]);
    let b = item(2, Some(10), Some(100), 5, vec![]);
    let mut state = Triage::new();
    assert_eq!(state.take_item(&a), Disposition::Ignore);
    assert_eq!(state.take_item(&b), Disposition::Superseded);
    assert_eq!(state.leader(key(10, 100)), Some((1, 9)));
    assert_eq!(state.finish().delete, vec![2]);
}

#[test]
fn tied_scores_supersede_neither() {
    let a = item(1, Some(10), Some(100), 7, vec![]);
    let b = item(2, Some(10), Some(100), 7, vec![]);
    let mut state = Triage::new();
    assert_eq!(state.take_item(&a), Disposition::Ignore);
    assert_eq!(state.take_item(&b), Disposition::Ignore);
    assert_eq!(state.leader(key(10, 100)), Some((1, 7)));
    let plan = state.finish();
    assert!(plan.delete.is_empty());
}

#[test]
fn tie_then_higher_displaces_only_the_leader() {
    let items = vec![
        item(1, Some(10), Some(100), 7, vec![]),
        item(2, Some(10), Some(100), 7, vec![]),
        item(3, Some(10), Some(100), 8, vec![]),
    ];
    assert_eq!(triage(&items).delete, vec![1]);
}

#[test]
fn tba_monitors_and_refreshes_series_once() {
    let a = item(1, Some(42), Some(1), 0, vec![entry(None, &[TBA])]);
    let b = item(2, Some(42), Some(2), 0, vec![entry(Some(TBA), &[])]);
    let mut state = Triage::new();
    assert_eq!(state.take_item(&a), Disposition::Monitor);
    assert_eq!(state.take_item(&b), Disposition::Monitor);
    let plan = state.finish();
    assert_eq!(plan.refresh, vec![42]);
    assert!(plan.delete.is_empty());
}

#[test]
fn tba_without_series_refreshes_nothing() {
    let a = item(1, None, None, 0, vec![entry(None, &[TBA])]);
    let mut state = Triage::new();
    assert_eq!(state.take_item(&a), Disposition::Monitor);
    assert!(state.finish().refresh.is_empty());
}

#[test]
fn custom_format_rejection_deleted_once() {
    let a = item(
        7,
        None,
        None,
        0,
        vec![entry(None, &[NOT_CF_UPGRADE]), entry(Some("release"), &["x", NOT_CF_UPGRADE])],
    );
    let mut state = Triage::new();
    assert_eq!(state.take_item(&a), Disposition::Delete);
    assert_eq!(state.finish().delete, vec![7]);
}

#[test]
fn deleted_item_also_displaced_is_listed_once() {
    let items = vec![
        item(1, Some(10), Some(100), 5, vec![entry(Some(NOT_UPGRADE), &[])]),
        item(2, Some(10), Some(100), 9, vec![]),
    ];
    assert_eq!(triage(&items).delete, vec![1]);
}

#[test]
fn not_an_upgrade_title_deletes() {
    let entries = vec![entry(Some(NOT_UPGRADE), &[])];
    assert_eq!(classify_messages(&entries), Disposition::Delete);
}

#[test]
fn not_an_upgrade_message_alone_is_ignored() {
    let entries = vec![entry(Some("release.mkv"), &[NOT_UPGRADE])];
    assert_eq!(classify_messages(&entries), Disposition::Ignore);
}

#[test]
fn matching_is_case_sensitive() {
    let entries = vec![entry(None, &["episode has a tba title and recently aired"])];
    assert_eq!(classify_messages(&entries), Disposition::Ignore);
}

#[test]
fn phrase_inside_longer_text_matches() {
    let text = format!("warning: {NOT_CF_UPGRADE}, skipped");
    let entries = vec![entry(None, &[text.as_str()])];
    assert_eq!(classify_messages(&entries), Disposition::Delete);
}

#[test]
fn first_deciding_entry_wins() {
    let entries = vec![entry(None, &[NOT_CF_UPGRADE]), entry(None, &[TBA])];
    assert_eq!(classify_messages(&entries), Disposition::Delete);
    let entries = vec![entry(None, &[TBA]), entry(None, &[NOT_CF_UPGRADE])];
    assert_eq!(classify_messages(&entries), Disposition::Monitor);
}

#[test]
fn pending_title_wins_within_one_entry() {
    let entries = vec![entry(Some(NOT_UPGRADE), &[TBA])];
    assert_eq!(classify_messages(&entries), Disposition::Monitor);
}

#[test]
fn no_messages_is_ignored() {
    assert_eq!(classify_messages(&vec![]), Disposition::Ignore);
}

#[test]
fn keyless_items_never_compete() {
    let a = item(1, Some(10), None, 9, vec![]);
    let b = item(2, Some(10), None, 1, vec![]);
    let c = item(3, None, Some(100), 1, vec![entry(None, &[TBA])]);
    let mut state = Triage::new();
    assert_eq!(state.take_item(&a), Disposition::Ignore);
    assert_eq!(state.take_item(&b), Disposition::Ignore);
    assert_eq!(state.take_item(&c), Disposition::Monitor);
    assert_eq!(state.leader(key(10, 100)), None);
    let plan = state.finish();
    assert!(plan.delete.is_empty());
    assert!(plan.refresh.is_empty());
}

#[test]
fn keys_differ_by_episode() {
    let items = vec![
        item(1, Some(10), Some(100), 9, vec![]),
        item(2, Some(10), Some(101), 1, vec![]),
        item(3, Some(11), Some(100), 1, vec![]),
    ];
    assert!(triage(&items).delete.is_empty());
}

#[test]
fn extreme_ids_stay_distinct_keys() {
    let mut state = Triage::new();
    state.take_item(&item(1, Some(i32::MIN), Some(i32::MAX), 1, vec![]));
    state.take_item(&item(2, Some(i32::MAX), Some(i32::MIN), 2, vec![]));
    assert_eq!(state.leader(key(i32::MIN, i32::MAX)), Some((1, 1)));
    assert_eq!(state.leader(key(i32::MAX, i32::MIN)), Some((2, 2)));
    assert!(state.finish().delete.is_empty());
}

#[test]
fn superseded_item_is_not_classified_further() {
    let items = vec![
        item(1, Some(5), Some(6), 10, vec![]),
        item(2, Some(5), Some(6), 3, vec![entry(None, &[TBA])]),
    ];
    let plan = triage(&items);
    assert!(plan.refresh.is_empty());
    assert_eq!(plan.delete, vec![2]);
}

#[test]
fn fetch_failure_plans_no_calls() {
    let fetched = Err(FetchError { reason: String::from("timeout") });
    let plan = plan_cycle(&fetched);
    assert!(plan.refresh.is_empty());
    assert!(plan.delete.is_empty());
    assert!(plan.delete_request().is_none());
}

#[test]
fn empty_delete_set_requests_no_delete() {
    let items = vec![item(1, Some(42), Some(1), 0, vec![entry(None, &[TBA])])];
    let plan = plan_cycle(&Ok(items));
    assert_eq!(plan.refresh, vec![42]);
    assert!(plan.delete_request().is_none());
}

#[test]
fn delete_request_carries_all_ids() {
    let items = vec![
        item(1, Some(1), Some(1), 1, vec![]),
        item(2, Some(1), Some(1), 2, vec![]),
        item(3, None, None, 0, vec![entry(None, &[NOT_CF_UPGRADE])]),
    ];
    let plan = plan_cycle(&Ok(items));
    assert_eq!(plan.delete_request(), Some(&vec![1, 3]));
}

#[test]
fn empty_queue_plans_nothing() {
    let plan = plan_cycle(&Ok(vec![]));
    assert!(plan.refresh.is_empty());
    assert!(plan.delete_request().is_none());
}
