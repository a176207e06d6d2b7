use bpm::btrfs::{SubvolInfo, Uuid};
use bpm::config::schema::{LifecyclePolicy, ShrinkPolicy};
use bpm::policy::change::{
    changed_since, decide_auto_snapshot, identical, user_changed, SnapDecision, SnapInputs,
};
use bpm::policy::lifecycle::stage_for_idle;
use bpm::policy::shrink::{evaluate, raise, reset, Gauge};
use bpm::policy::thin::{collapse_deletions, policy_deletable, select_deletions, Windows};
use bpm::store::{Frozen, ProjectState, RefStats, SnapshotKind, SnapshotMeta, Stage};
use bpm::util::time::{add, age, sub, Duration, Timestamp};
use bpm::util::walk::TreeStats;

fn at(s: &str) -> Timestamp {
    let t: jiff::Timestamp = s.parse().unwrap();
    Timestamp { ns: t.as_nanosecond() }
}

fn live(ctransid: u64, generation: u64) -> SubvolInfo {
    SubvolInfo {
        id: 300,
        name: "p".into(),
        parent_id: 5,
        generation,
        flags: 0,
        uuid: Uuid([1; 16]),
        parent_uuid: None,
        received_uuid: None,
        ctransid,
        otransid: 10,
        ctime: None,
        otime: None,
    }
}

fn snap(ct: u64, ot: u64, created: &str) -> SnapshotMeta {
    let mut m = SnapshotMeta::sample(1, "p");
    m.source_ctransid = ct;
    m.snapshot_otransid = ot;
    m.created = at(created);
    m
}

#[test]
fn identity_rules() {
    let s = snap(50, 60, "2026-09-14T10:00:00Z");
    assert!(identical(&live(50, 60), &s), "right after snapshot: gen == otransid");
    assert!(!identical(&live(61, 61), &s), "content change");
    assert!(!identical(&live(50, 61), &s), "metadata-only change seen via generation");
    assert!(changed_since(&live(1, 1), None));
}

#[test]
fn user_change_ignores_tool_changes() {
    let mut st = ProjectState { snap_ctransid: 50, ..ProjectState::new() };
    assert!(user_changed(&live(55, 55), &st));
    st.tool_ctransid = 55;
    assert!(!user_changed(&live(55, 55), &st));
    assert!(user_changed(&live(56, 56), &st));
}

#[test]
fn auto_snapshot_decision() {
    let s = snap(50, 60, "2026-09-14T10:00:00Z");
    let now: Timestamp = at("2026-09-14T10:03:00Z");
    let l = live(70, 70);
    let mut i = SnapInputs {
        live: &l,
        newest: Some(&s),
        now,
        min_interval: Duration::from_secs(300),
        free: 100 << 30,
        min_free: 20 << 30,
    };
    assert_eq!(decide_auto_snapshot(&i), SnapDecision::Skip("min_interval"));
    i.now = at("2026-09-14T10:05:00Z");
    assert!(matches!(decide_auto_snapshot(&i), SnapDecision::Take(_)));
    i.free = 1 << 30;
    assert_eq!(decide_auto_snapshot(&i), SnapDecision::Skip("low free space"));
    let l = live(50, 60);
    i.live = &l;
    assert_eq!(decide_auto_snapshot(&i), SnapDecision::Skip("unchanged"));
}

#[test]
fn the_reason_of_a_snapshot_names_the_counters() {
    let s = snap(50, 60, "2026-09-14T10:00:00Z");
    let l = live(70, 70);
    let i = SnapInputs {
        live: &l,
        newest: Some(&s),
        now: at("2026-09-14T12:00:00Z"),
        min_interval: Duration::from_secs(300),
        free: 1,
        min_free: 0,
    };
    assert_eq!(
        decide_auto_snapshot(&i),
        SnapDecision::Take("changed (ctransid 50 -> 70)".to_string())
    );
    let i = SnapInputs { newest: None, ..i };
    assert_eq!(
        decide_auto_snapshot(&i),
        SnapDecision::Take("changed (ctransid none -> 70)".to_string())
    );
}

#[test]
fn stages() {
    let p = LifecyclePolicy {
        dormant_after: Duration::from_secs(14 * 86400),
        cold_after: Duration::from_secs(60 * 86400),
        adopt_grace: Duration::from_secs(86400),
    };
    assert_eq!(stage_for_idle(Duration::from_secs(13 * 86400), &p), Stage::Active);
    assert_eq!(stage_for_idle(Duration::from_secs(14 * 86400), &p), Stage::Dormant);
    assert_eq!(stage_for_idle(Duration::from_secs(61 * 86400), &p), Stage::Cold);
}

const RATIO: f64 = 0.30;
const CATASTROPHIC: f64 = 0.10;

fn policy() -> ShrinkPolicy {
    ShrinkPolicy {
        enabled: true,
        min_files: 100,
        min_bytes: 50 << 20,
        exclude: vec![".git".into()],
        sentinels: vec![".git".into()],
        thin_after_freeze: true,
    }
}

fn gauge(r: &RefStats, new: &TreeStats) -> Gauge {
    let part = |from: u64, to: u64| from.saturating_sub(to) as f64 / from.max(1) as f64;
    Gauge {
        catastrophic: (new.files as f64) <= r.files as f64 * CATASTROPHIC,
        files_over: part(r.files, new.files) > RATIO,
        bytes_over: part(r.bytes, new.bytes) > RATIO,
        files_pct: format!("{:.0}", part(r.files, new.files) * 100.0),
        bytes_pct: format!("{:.0}", part(r.bytes, new.bytes) * 100.0),
        bytes_before: format!("{}", r.bytes),
        bytes_after: format!("{}", new.bytes),
    }
}

fn stats(files: u64, bytes: u64, git: bool) -> TreeStats {
    let mut s = TreeStats { files, bytes, complete: true, ..TreeStats::empty() };
    s.sentinels.insert(".git".into(), git);
    s
}

fn judge(r: &RefStats, prev: Option<&TreeStats>, new: &TreeStats, sentinels: &Vec<String>) -> Vec<String> {
    evaluate(r, prev, new, &policy(), sentinels, &gauge(r, new))
}

#[test]
fn large_drop_freezes() {
    let base = stats(2000, 300 << 20, true);
    let r = reset(&base, 1);
    let v = judge(&r, Some(&base), &stats(1200, 180 << 20, true), &vec![".git".into()]);
    assert_eq!(v.len(), 2, "{v:?}");
    assert_eq!(v[0], "files 2000 -> 1200 (-40%, high-water in snapshot 1)");
    assert_eq!(
        v[1],
        "bytes 314572800 -> 188743680 (-40%, high-water in snapshot 1)"
    );
}

#[test]
fn drip_deletion_trips_at_cumulative_threshold() {
    let mut r = reset(&stats(2000, 10 << 20, true), 1);
    let mut files = 2000u64;
    let mut prev = stats(files, 10 << 20, true);
    let mut tripped_at = None;
    for step in 1..=5 {
        files -= 240; // 12% of the original each step
        let new = stats(files, 10 << 20, true);
        let v = judge(&r, Some(&prev), &new, &vec![".git".into()]);
        if !v.is_empty() {
            tripped_at = Some(step);
            break;
        }
        raise(&mut r, &new, step + 1);
        prev = new;
    }
    assert_eq!(tripped_at, Some(3), "36% cumulative loss crosses 30%");
}

#[test]
fn small_projects_growth_and_sentinels() {
    let r = reset(&stats(50, 1 << 20, true), 1);
    assert!(judge(&r, None, &stats(20, 1 << 19, true), &vec![]).is_empty(), "below absolute floors");
    assert!(
        !judge(&r, None, &stats(3, 1 << 19, true), &vec![]).is_empty(),
        "catastrophic ignores floors"
    );
    let prev = stats(50, 1 << 20, true);
    let v = judge(&r, Some(&prev), &stats(50, 1 << 20, false), &vec![".git".into()]);
    assert_eq!(v, vec!["sentinel .git removed"]);
    let mut r2 = r.clone();
    raise(&mut r2, &stats(80, 2 << 20, true), 9);
    assert_eq!((r2.files, r2.files_snap), (80, 9));
    let mut incomplete = stats(1, 1, true);
    incomplete.complete = false;
    assert!(judge(&r2, None, &incomplete, &vec![]).is_empty());
}

#[test]
fn the_mark_names_the_last_snapshot_that_reached_it() {
    let mut r = RefStats { files: 50, files_snap: 1, bytes: 500, bytes_snap: 1 };
    let mut cut_short = stats(99, 999, true);
    cut_short.complete = false;
    for (s, id) in [(&stats(40, 400, true), 2), (&cut_short, 3)] {
        raise(&mut r, s, id);
    }
    assert_eq!(r, RefStats { files: 50, files_snap: 1, bytes: 500, bytes_snap: 1 });
    for (s, id) in [(&stats(60, 400, true), 4), (&stats(60, 700, true), 5), (&stats(30, 600, true), 6)] {
        raise(&mut r, s, id);
    }
    assert_eq!(r, RefStats { files: 60, files_snap: 5, bytes: 700, bytes_snap: 5 });
}

#[test]
fn a_guard_that_is_off_never_trips() {
    let r = reset(&stats(2000, 300 << 20, true), 1);
    let new = stats(1, 1, true);
    let mut p = policy();
    assert!(!evaluate(&r, None, &new, &p, &vec![], &gauge(&r, &new)).is_empty());
    p.enabled = false;
    assert!(evaluate(&r, None, &new, &p, &vec![], &gauge(&r, &new)).is_empty());
}

fn windows() -> Windows {
    Windows {
        keep_all: Duration::from_secs(6 * 3600),
        hourly: Duration::from_secs(48 * 3600),
        daily: Duration::from_secs(14 * 86400),
        weekly: Duration::from_secs(8 * 7 * 86400),
        safety_ttl: Duration::from_secs(7 * 86400),
    }
}

/// One snapshot every 30 minutes for `days`, ending at `now`.
fn series(now: Timestamp, days: u64) -> Vec<SnapshotMeta> {
    let n = days * 48;
    (0..n)
        .map(|i| {
            let mut m = SnapshotMeta::sample(i + 1, "p");
            m.created = sub(now, Duration::from_secs((n - 1 - i) * 1800));
            m.snapshot_otransid = 1000 + i;
            m
        })
        .collect()
}

fn kept(snaps: &Vec<SnapshotMeta>, now: Timestamp, w: &Windows) -> Vec<u64> {
    let del = select_deletions(snaps, now, w, None, true);
    snaps.iter().map(|m| m.id).filter(|id| !del.contains(id)).collect()
}

#[test]
fn windows_bound_counts() {
    let now = at("2026-09-14T12:10:00Z");
    let snaps = series(now, 40);
    let k = kept(&snaps, now, &windows());
    // keep_all 6h at 30 min spacing = 13, hourly 48h ≈ 48, daily 14d ≈ 14, weekly: <= 6 in 40 days
    assert!(k.len() <= 13 + 48 + 14 + 7, "kept {}", k.len());
    assert!(k.len() >= 48, "kept {}", k.len());
    assert!(k.contains(&snaps.last().unwrap().id), "newest always kept");
    let oldest_kept = snaps.iter().find(|m| k.contains(&m.id)).unwrap();
    assert!(age(now, oldest_kept.created).ns > Duration::from_secs(30 * 86400).ns, "weekly reach");
}

#[test]
fn representatives_are_stable_between_ticks() {
    let now = at("2026-09-14T12:10:00Z");
    let w = windows();
    let snaps = series(now, 20);
    let k1 = kept(&snaps, now, &w);
    let survivors: Vec<SnapshotMeta> = snaps.into_iter().filter(|m| k1.contains(&m.id)).collect();
    let later = add(now, Duration::from_secs(300));
    let k2 = kept(&survivors, later, &w);
    let lost: Vec<&u64> = k1.iter().filter(|i| !k2.contains(i)).collect();
    assert!(lost.len() <= 2, "only window-edge snapshots may drop within 5 minutes, lost {lost:?}");
}

#[test]
fn thinning_again_at_once_changes_nothing() {
    let now = at("2026-09-14T12:10:00Z");
    let w = windows();
    let snaps = series(now, 20);
    let k1 = kept(&snaps, now, &w);
    let survivors: Vec<SnapshotMeta> = snaps.into_iter().filter(|m| k1.contains(&m.id)).collect();
    assert!(select_deletions(&survivors, now, &w, None, true).is_empty());
}

#[test]
fn held_keep_kinds_and_safety_ttl() {
    let now = at("2026-09-14T12:00:00Z");
    let mut snaps = series(now, 30);
    snaps[0].hold = true;
    snaps[1].kind = SnapshotKind::Manual;
    snaps[2].kind = SnapshotKind::Rollback; // 30 days old: past safety ttl
    let last = snaps.len() - 3;
    snaps[last].kind = SnapshotKind::Pre; // recent: inside safety ttl
    let del = select_deletions(&snaps, now, &windows(), None, true);
    assert!(!del.contains(&snaps[0].id));
    assert!(!del.contains(&snaps[1].id));
    assert!(!del.contains(&snaps[last].id));
    // idle project converges: newest + weeklies only, eventually one
    let far = add(now, Duration::from_secs(70 * 86400));
    let del_far = select_deletions(&snaps, far, &windows(), None, true);
    let remaining: Vec<u64> = snaps.iter().map(|m| m.id).filter(|i| !del_far.contains(i)).collect();
    assert_eq!(remaining, vec![snaps[0].id, snaps[1].id, snaps.last().unwrap().id]);
}

#[test]
fn frozen_protects_everything_before_the_freeze() {
    let now = at("2026-09-14T12:00:00Z");
    let snaps = series(now, 10);
    let frozen = Frozen {
        since: sub(now, Duration::from_secs(86400)),
        reasons: vec![],
        trigger_snap: None,
        ref_snap: None,
    };
    for id in select_deletions(&snaps, now, &windows(), Some(&frozen), true) {
        let m = snaps.iter().find(|m| m.id == id).unwrap();
        assert!(m.created.ns > frozen.since.ns);
    }
    assert!(select_deletions(&snaps, now, &windows(), Some(&frozen), false).is_empty());
    assert!(collapse_deletions(&snaps, now, windows().safety_ttl, Some(&frozen)).is_empty());
}

#[test]
fn collapse_keeps_newest_held_and_keep_kinds() {
    let now = at("2026-09-14T12:00:00Z");
    let mut snaps = series(now, 2);
    snaps[3].hold = true;
    snaps[4].kind = SnapshotKind::Manual;
    let del = collapse_deletions(&snaps, now, Duration::zero(), None);
    let remaining: Vec<u64> = snaps.iter().map(|m| m.id).filter(|i| !del.contains(i)).collect();
    assert_eq!(remaining, vec![snaps[3].id, snaps[4].id, snaps.last().unwrap().id]);
}

#[test]
fn safety_snapshots_go_after_their_time() {
    let now = at("2026-09-14T12:00:00Z");
    let mut m = SnapshotMeta::sample(1, "p");
    m.kind = SnapshotKind::PreRestore;
    m.created = sub(now, Duration::from_secs(100));
    assert!(!policy_deletable(&m, now, Duration::from_secs(100), None, true));
    assert!(policy_deletable(&m, now, Duration::from_secs(99), None, true));
}
