use tempo::mission::Mission;
use tempo::store::{MissionStore, StoreError};

const T0: i64 = 1_700_000_000_000;
const MINUTE: i64 = 60_000;

fn mission(id: i64, name: &str, start: i64, end: Option<i64>) -> Mission {
    Mission { id, name: name.to_string(), start_date: start, end_date: end }
}

#[test]
fn status_follows_start_stop_resume() {
    let mut store = MissionStore::new();
    let started = store.start_mission("write spec".to_string(), T0).unwrap();
    assert_eq!(started.name, "write spec");
    assert_eq!(started.start_date, T0);
    assert_eq!(started.end_date, None);

    let active = store.active_mission().unwrap();
    assert_eq!(active.name, "write spec");
    assert_eq!(active.elapsed_time(T0 + 5 * MINUTE), 300);

    assert_eq!(store.stop_active_missions(T0 + 10 * MINUTE), 1);
    assert!(store.active_mission().is_none());

    assert_eq!(store.resume_latest_mission(), Some(0));
    let active = store.active_mission().unwrap();
    assert_eq!(active.name, "write spec");
    assert_eq!(active.elapsed_time(T0 + 10 * MINUTE + 1_000), 601);
}

#[test]
fn list_on_empty_store_is_empty() {
    let store = MissionStore::new();
    assert!(store.list_missions(10).is_empty());
}

#[test]
fn start_closes_previous_mission() {
    let mut store = MissionStore::new();
    store.start_mission("a".to_string(), T0).unwrap();
    store.start_mission("b".to_string(), T0 + MINUTE).unwrap();
    let c = store.start_mission("c".to_string(), T0 + 2 * MINUTE).unwrap();
    assert_eq!(c.id, 3);
    let all = store.missions();
    assert_eq!(all.len(), 3);
    assert_eq!(all[0].end_date, Some(T0 + MINUTE));
    assert_eq!(all[1].end_date, Some(T0 + 2 * MINUTE));
    assert_eq!(all[2].end_date, None);
    let info = store.info();
    assert_eq!((info.total, info.running, info.finished), (3, 1, 2));
    assert_eq!(store.active_mission().unwrap().name, "c");
}

#[test]
fn stop_when_idle_changes_nothing() {
    let mut store = MissionStore::load(vec![mission(1, "a", T0, Some(T0 + MINUTE))]).unwrap();
    assert_eq!(store.stop_active_missions(T0 + 5 * MINUTE), 0);
    assert_eq!(store.missions()[0].end_date, Some(T0 + MINUTE));
    assert_eq!(store.stop_active_missions(T0 + 6 * MINUTE), 0);
    assert_eq!(store.missions().len(), 1);
}

#[test]
fn stop_closes_every_open_mission() {
    let mut store = MissionStore::load(vec![
        mission(1, "a", T0, None),
        mission(2, "b", T0 + MINUTE, Some(T0 + 2 * MINUTE)),
        mission(3, "c", T0 + 3 * MINUTE, None),
    ])
    .unwrap();
    assert_eq!(store.stop_active_missions(T0 + 4 * MINUTE), 2);
    let all = store.missions();
    assert_eq!(all[0].end_date, Some(T0 + 4 * MINUTE));
    assert_eq!(all[1].end_date, Some(T0 + 2 * MINUTE));
    assert_eq!(all[2].end_date, Some(T0 + 4 * MINUTE));
}

#[test]
fn resume_on_empty_store_is_a_no_op() {
    let mut store = MissionStore::new();
    assert_eq!(store.resume_latest_mission(), None);
    assert!(store.missions().is_empty());
}

#[test]
fn resume_picks_latest_start_not_latest_id() {
    let mut store = MissionStore::load(vec![
        mission(1, "late", T0 + 5 * MINUTE, Some(T0 + 6 * MINUTE)),
        mission(2, "early", T0, Some(T0 + MINUTE)),
    ])
    .unwrap();
    assert_eq!(store.resume_latest_mission(), Some(0));
    assert_eq!(store.missions()[0].end_date, None);
    assert_eq!(store.missions()[1].end_date, Some(T0 + MINUTE));
}

#[test]
fn resume_leaves_other_open_missions_open() {
    let mut store = MissionStore::load(vec![
        mission(1, "open", T0, None),
        mission(2, "closed", T0 + MINUTE, Some(T0 + 2 * MINUTE)),
    ])
    .unwrap();
    assert_eq!(store.resume_latest_mission(), Some(1));
    assert_eq!(store.info().running, 2);
    assert_eq!(store.active_mission().unwrap().name, "closed");
}

#[test]
fn active_mission_prefers_latest_start() {
    let store = MissionStore::load(vec![
        mission(1, "newer", T0 + MINUTE, None),
        mission(2, "older", T0, None),
        mission(3, "closed", T0 + 9 * MINUTE, Some(T0 + 10 * MINUTE)),
    ])
    .unwrap();
    assert_eq!(store.active_mission().unwrap().id, 1);
}

#[test]
fn list_returns_newest_ids_first_up_to_limit() {
    let store = MissionStore::load(vec![
        mission(1, "a", T0, Some(T0 + 1)),
        mission(2, "b", T0 + 2, Some(T0 + 3)),
        mission(3, "c", T0 + 4, None),
    ])
    .unwrap();
    let ids: Vec<i64> = store.list_missions(2).iter().map(|m| m.id).collect();
    assert_eq!(ids, vec![3, 2]);
    let ids: Vec<i64> = store.list_missions(10).iter().map(|m| m.id).collect();
    assert_eq!(ids, vec![3, 2, 1]);
    assert!(store.list_missions(0).is_empty());
}

#[test]
fn load_rejects_unordered_ids() {
    let r = MissionStore::load(vec![mission(2, "a", T0, None), mission(2, "b", T0, None)]);
    assert_eq!(r.err(), Some(StoreError::UnorderedIds));
}

#[test]
fn load_rejects_full_id_space() {
    let r = MissionStore::load(vec![mission(i64::MAX, "a", T0, None)]);
    assert_eq!(r.err(), Some(StoreError::IdsExhausted));
}

#[test]
fn start_fails_when_ids_run_out() {
    let mut store = MissionStore::load(vec![mission(i64::MAX - 2, "a", T0, None)]).unwrap();
    assert_eq!(store.next_mission_id(), i64::MAX - 1);
    let m = store.start_mission("b".to_string(), T0 + MINUTE).unwrap();
    assert_eq!(m.id, i64::MAX - 1);
    let r = store.start_mission("c".to_string(), T0 + 2 * MINUTE);
    assert_eq!(r.err(), Some(StoreError::IdsExhausted));
    assert_eq!(store.missions().len(), 2);
    assert_eq!(store.missions()[1].end_date, None);
}

#[test]
fn elapsed_time_truncates_to_whole_seconds() {
    let closed = mission(1, "a", T0, Some(T0 + 61_999));
    assert_eq!(closed.elapsed_time(T0 + 1_000_000), 61);
    let open = mission(2, "b", T0, None);
    assert_eq!(open.elapsed_time(T0 + 1_500), 1);
    assert_eq!(open.elapsed_time(T0 - 1_500), -1);
    assert!(open.is_open());
    assert!(!closed.is_open());
}

#[test]
fn elapsed_time_grows_for_open_mission() {
    let open = mission(1, "a", T0, None);
    let mut last = open.elapsed_time(T0);
    for step in 1..50 {
        let now = open.elapsed_time(T0 + step * 333);
        assert!(now >= last);
        last = now;
    }
}
