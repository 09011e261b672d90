use std::collections::{HashMap, HashSet};

use stats_sync::error::SyncError;
use stats_sync::id_map::IdMapping;
use stats_sync::persist::{
    artist_ids_of_entries, collect_track_ids, genre_replacement, genres_by_artist_id,
    plan_persist, PersistPlan, RankRow, TrackArtistPair,
};
use stats_sync::snapshot::{Artist, Snapshot, TimeFrames, Track};

fn artist(id: &str, genres: &[&str]) -> Artist {
    Artist { id: id.to_string(), genres: Some(genres.iter().map(|g| g.to_string()).collect()) }
}

fn empty_frames<T>() -> TimeFrames<T> {
    TimeFrames { short: Vec::new(), medium: Vec::new(), long: Vec::new() }
}

fn mapping(pairs: &[(&str, i32)]) -> IdMapping {
    IdMapping::from_pairs(&pairs.iter().map(|(k, v)| (k.to_string(), *v)).collect())
}

/// The tables, as a test keeps them.
#[derive(Default)]
struct Tables {
    artist_ranks: Vec<RankRow>,
    track_ranks: Vec<RankRow>,
    track_artists: HashSet<(i32, i32)>,
    artist_genres: HashSet<(i32, String)>,
    last_update: HashMap<i64, i64>,
}

impl Tables {
    fn apply(&mut self, p: &PersistPlan) {
        self.artist_ranks.extend(p.artist_ranks.iter().copied());
        for pair in &p.track_artists {
            self.track_artists.insert((pair.track_id, pair.artist_id));
        }
        self.artist_genres.retain(|(a, _)| !p.genre_artists.contains(a));
        for row in &p.artist_genres {
            self.artist_genres.insert((row.artist_id, row.genre.clone()));
        }
        self.track_ranks.extend(p.track_ranks.iter().copied());
        if let Some(t) = self.last_update.get_mut(&p.user_id) {
            *t = p.update_time;
        }
    }
}

fn sample_snapshot(time: i64, x_genres: &[&str]) -> Snapshot {
    let mut artists = empty_frames();
    artists.short = vec![artist("A", &[]), artist("B", &[]), artist("C", &[])];
    artists.long = vec![artist("X", x_genres)];
    let mut tracks = empty_frames();
    tracks.short = vec![Track { id: "T".to_string(), artists: vec![artist("X", x_genres)] }];
    Snapshot { last_update_time: time, tracks, artists }
}

fn plan_for(s: &Snapshot) -> PersistPlan {
    let genres = genres_by_artist_id(s);
    let am = mapping(&[("A", 1), ("B", 2), ("C", 3), ("X", 4)]);
    let tm = mapping(&[("T", 10)]);
    plan_persist(77, s, &genres, &am, &tm).expect("all ids mapped")
}

#[test]
fn ranks_follow_list_positions() {
    let p = plan_for(&sample_snapshot(500, &["pop"]));
    let short: Vec<&RankRow> = p.artist_ranks.iter().filter(|r| r.timeframe == 0).collect();
    assert_eq!(short.len(), 3);
    assert_eq!(short.iter().map(|r| r.mapped_spotify_id).collect::<Vec<_>>(), vec![1, 2, 3]);
    assert_eq!(short.iter().map(|r| r.ranking).collect::<Vec<_>>(), vec![0, 1, 2]);
    assert!(short.iter().all(|r| r.user_id == 77 && r.update_time == 500));
    assert_eq!(
        p.artist_ranks[3],
        RankRow { user_id: 77, mapped_spotify_id: 4, update_time: 500, timeframe: 2, ranking: 0 }
    );
    assert_eq!(
        p.track_ranks,
        vec![RankRow { user_id: 77, mapped_spotify_id: 10, update_time: 500, timeframe: 0, ranking: 0 }]
    );
    assert_eq!(p.track_artists, vec![TrackArtistPair { track_id: 10, artist_id: 4 }]);
}

#[test]
fn genres_are_replaced_not_merged() {
    let mut db = Tables::default();
    db.artist_genres.insert((4, "rock".to_string()));
    db.artist_genres.insert((9, "jazz".to_string()));
    db.apply(&plan_for(&sample_snapshot(500, &["pop", "indie"])));
    let x: HashSet<String> =
        db.artist_genres.iter().filter(|(a, _)| *a == 4).map(|(_, g)| g.clone()).collect();
    let expected: HashSet<String> = ["pop", "indie"].iter().map(|g| g.to_string()).collect();
    assert_eq!(x, expected);
    assert!(db.artist_genres.contains(&(9, "jazz".to_string())));
}

#[test]
fn track_artist_pair_stored_once() {
    let mut db = Tables::default();
    let p = plan_for(&sample_snapshot(500, &[]));
    db.apply(&p);
    db.apply(&p);
    assert_eq!(db.track_artists.len(), 1);
    assert!(db.track_artists.contains(&(10, 4)));
}

#[test]
fn rank_history_accumulates() {
    let mut db = Tables::default();
    let p = plan_for(&sample_snapshot(500, &[]));
    db.apply(&p);
    let once = db.artist_ranks.len();
    db.apply(&p);
    assert_eq!(once, 4);
    assert_eq!(db.artist_ranks.len(), 8);
    assert_eq!(db.track_ranks.len(), 2);
}

#[test]
fn last_update_follows_snapshot_time_even_backwards() {
    let mut db = Tables::default();
    db.last_update.insert(77, 900);
    db.apply(&plan_for(&sample_snapshot(500, &[])));
    assert_eq!(db.last_update[&77], 500);
}

#[test]
fn last_seen_genres_win_and_ids_are_distinct() {
    let mut artists = empty_frames();
    artists.short = vec![artist("X", &["rock"]), artist("Y", &[])];
    let mut tracks = empty_frames();
    tracks.medium = vec![Track {
        id: "T".to_string(),
        artists: vec![artist("X", &["pop"]), Artist { id: "Z".to_string(), genres: None }],
    }];
    let s = Snapshot { last_update_time: 1, tracks, artists };
    let e = genres_by_artist_id(&s);
    let mut ids = artist_ids_of_entries(&e);
    ids.sort();
    assert_eq!(ids, vec!["X".to_string(), "Y".to_string(), "Z".to_string()]);
    let by_id: HashMap<String, Vec<String>> = e.into_iter().collect();
    assert_eq!(by_id["X"], vec!["pop".to_string()]);
    assert!(by_id["Y"].is_empty());
    assert!(by_id["Z"].is_empty());
    assert_eq!(collect_track_ids(&s), vec!["T".to_string()]);
}

#[test]
fn unmapped_id_is_an_error() {
    let s = sample_snapshot(500, &[]);
    let genres = genres_by_artist_id(&s);
    let am = mapping(&[("A", 1), ("B", 2), ("X", 4)]);
    let tm = mapping(&[("T", 10)]);
    assert!(matches!(plan_persist(77, &s, &genres, &am, &tm), Err(SyncError::UnmappedId)));
    let am = mapping(&[("A", 1), ("B", 2), ("C", 3), ("X", 4)]);
    let tm = mapping(&[]);
    assert!(matches!(plan_persist(77, &s, &genres, &am, &tm), Err(SyncError::UnmappedId)));
}

#[test]
fn mapping_lookup_and_later_rows_win() {
    let m = mapping(&[("a", 1), ("b", 2), ("a", 3)]);
    assert_eq!(m.get(&"a".to_string()), Some(3));
    assert_eq!(m.get(&"b".to_string()), Some(2));
    assert_eq!(m.get(&"c".to_string()), None);
}

#[test]
fn genre_rows_carry_internal_ids() {
    let e = vec![("X".to_string(), vec!["pop".to_string(), "indie".to_string()])];
    let (artists, rows) = genre_replacement(&e, &mapping(&[("X", 4)])).expect("mapped");
    assert_eq!(artists, vec![4]);
    assert_eq!(
        rows.iter().map(|r| (r.artist_id, r.genre.clone())).collect::<Vec<_>>(),
        vec![(4, "pop".to_string()), (4, "indie".to_string())]
    );
    assert!(matches!(genre_replacement(&e, &mapping(&[])), Err(SyncError::UnmappedId)));
}
