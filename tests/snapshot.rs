use stats_sync::error::SyncError;
use stats_sync::snapshot::{
    assemble_snapshot, fan_out_requests, Artist, FanOutReport, TimeFrames, TopEntities, Track,
};
use stats_sync::timeframe::{map_timeframe_to_timeframe_id, EntityKind, Timeframe};

fn artist(id: &str) -> Artist {
    Artist { id: id.to_string(), genres: None }
}

fn track(id: &str) -> Track {
    Track { id: id.to_string(), artists: vec![artist("x")] }
}

fn ok_reports() -> Vec<FanOutReport> {
    let mut reports = Vec::new();
    for (kind, tf) in fan_out_requests() {
        let result = match kind {
            EntityKind::Tracks => Ok(TopEntities::Tracks(vec![track(tf.name())])),
            EntityKind::Artists => Ok(TopEntities::Artists(vec![
                artist(tf.name()),
                artist("second"),
            ])),
        };
        reports.push(FanOutReport { timeframe: tf, result });
    }
    reports
}

#[test]
fn timeframe_codes_and_names() {
    assert_eq!(map_timeframe_to_timeframe_id(Timeframe::Short), 0);
    assert_eq!(map_timeframe_to_timeframe_id(Timeframe::Medium), 1);
    assert_eq!(map_timeframe_to_timeframe_id(Timeframe::Long), 2);
    assert_eq!(Timeframe::Medium.name(), "medium");
    assert_eq!(EntityKind::Artists.name(), "artists");
}

#[test]
fn six_distinct_requests() {
    let reqs = fan_out_requests();
    assert_eq!(reqs.len(), 6);
    for i in 0..6 {
        for j in (i + 1)..6 {
            assert_ne!(reqs[i], reqs[j]);
        }
    }
}

#[test]
fn all_reports_fill_every_slot() {
    let snap = assemble_snapshot(1_000, ok_reports()).expect("all six succeeded");
    assert_eq!(snap.last_update_time, 1_000);
    for tf in [Timeframe::Short, Timeframe::Medium, Timeframe::Long] {
        let tracks = snap.tracks.get(tf);
        assert_eq!(tracks.len(), 1);
        assert_eq!(tracks[0].id, tf.name());
        let artists = snap.artists.get(tf);
        assert_eq!(
            artists.iter().map(|a| a.id.clone()).collect::<Vec<_>>(),
            vec![tf.name().to_string(), "second".to_string()]
        );
    }
}

#[test]
fn one_failed_request_yields_no_snapshot() {
    let mut reports = ok_reports();
    reports[4].result = Err(SyncError::UpstreamRequest);
    let r = assemble_snapshot(5, reports);
    assert!(matches!(r, Err(SyncError::UpstreamRequest)));
}

#[test]
fn first_failure_in_collection_order_wins() {
    let mut reports = ok_reports();
    reports[1].result = Err(SyncError::UpstreamResponse);
    reports[3].result = Err(SyncError::UpstreamRequest);
    assert!(matches!(
        assemble_snapshot(5, reports),
        Err(SyncError::UpstreamResponse)
    ));
}

#[test]
fn add_item_appends_to_its_slot_only() {
    let mut tfs: TimeFrames<u32> = TimeFrames::new();
    tfs.add_item(Timeframe::Medium, 7);
    tfs.add_item(Timeframe::Medium, 9);
    tfs.extend_slot(Timeframe::Long, vec![1, 2]);
    assert!(tfs.get(Timeframe::Short).is_empty());
    assert_eq!(tfs.get(Timeframe::Medium), &vec![7, 9]);
    assert_eq!(tfs.get(Timeframe::Long), &vec![1, 2]);
}
