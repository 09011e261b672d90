//! From a snapshot to the rows the relational store receives: rank
//! history rows, track/artist pairs, and the replacement genre rows of every artist
//! seen. The store applies a `PersistPlan`; `StoreModel` states what that does.
use vstd::prelude::*;
use crate::error::SyncError;
use crate::id_map::{IdMapping, mapping_contents};
use crate::snapshot::{Artist, Snapshot, TimeFrames, Track};
use crate::timeframe::{Timeframe, map_timeframe_to_timeframe_id, timeframe_code};

verus! {

/// Longest list whose positions fit the store's rank column.
pub const MAX_RANKED_LIST_LEN: usize = 65536;

/// One row of rank history: where an entity stood for a user in one timeframe at one
/// sync time.
#[derive(Clone, Copy, Debug, PartialEq, Eq, Structural)]
pub struct RankRow {
    pub user_id: i64,
    pub mapped_spotify_id: i32,
    pub update_time: i64,
    pub timeframe: u8,
    pub ranking: u16,
}

/// A track credited to an artist, by internal ids.
#[derive(Clone, Copy, Debug, PartialEq, Eq, Structural)]
pub struct TrackArtistPair {
    pub track_id: i32,
    pub artist_id: i32,
}

/// A genre tag of an artist, by internal id.
pub struct ArtistGenrePair {
    pub artist_id: i32,
    pub genre: String,
}

/// The external ids of a list of artists, in order.
pub open spec fn artist_ids(a: Seq<Artist>) -> Seq<Seq<char>> {
    a.map_values(|x: Artist| x.id@)
}

/// The external ids of a list of tracks, in order.
pub open spec fn track_ids(t: Seq<Track>) -> Seq<Seq<char>> {
    t.map_values(|x: Track| x.id@)
}

/// Whether the mapping holds every id of the list.
pub open spec fn all_mapped(ids: Seq<Seq<char>>, m: Map<Seq<char>, i32>) -> bool {
    forall|i: int| 0 <= i < ids.len() ==> m.dom().contains(#[trigger] ids[i])
}

/// The rank rows of one ordered list: position `k` is rank `k`.
pub open spec fn rank_rows_spec(
    user_id: i64,
    time: i64,
    tf: Timeframe,
    ids: Seq<Seq<char>>,
    m: Map<Seq<char>, i32>,
) -> Seq<RankRow> {
    Seq::new(
        ids.len(),
        |k: int|
            RankRow {
                user_id,
                mapped_spotify_id: m[ids[k]],
                update_time: time,
                timeframe: timeframe_code(tf),
                ranking: k as u16,
            },
    )
}

/// The rank rows of all three timeframes, short then medium then long.
pub open spec fn all_rank_rows(
    user_id: i64,
    time: i64,
    ids: spec_fn(Timeframe) -> Seq<Seq<char>>,
    m: Map<Seq<char>, i32>,
) -> Seq<RankRow> {
    rank_rows_spec(user_id, time, Timeframe::Short, ids(Timeframe::Short), m) + rank_rows_spec(
        user_id,
        time,
        Timeframe::Medium,
        ids(Timeframe::Medium),
        m,
    ) + rank_rows_spec(user_id, time, Timeframe::Long, ids(Timeframe::Long), m)
}

/// The external ids of the artists of a list.
pub fn ids_of_artists(a: &Vec<Artist>) -> (r: Vec<String>)
    ensures
        r@.map_values(|s: String| s@) == artist_ids(a@),
        r.len() == a.len(),
{
    let mut r: Vec<String> = Vec::new();
    let mut i: usize = 0;
    while i < a.len()
        invariant
            i <= a.len(),
            r.len() == i,
            forall|j: int| 0 <= j < i ==> (#[trigger] r@[j])@ == a@[j].id@,
        decreases a.len() - i,
    {
        r.push(a[i].id.clone());
        i += 1;
    }
    assert(r@.map_values(|s: String| s@) =~= artist_ids(a@));
    r
}

/// The external ids of the tracks of a list.
pub fn ids_of_tracks(t: &Vec<Track>) -> (r: Vec<String>)
    ensures
        r@.map_values(|s: String| s@) == track_ids(t@),
        r.len() == t.len(),
{
    let mut r: Vec<String> = Vec::new();
    let mut i: usize = 0;
    while i < t.len()
        invariant
            i <= t.len(),
            r.len() == i,
            forall|j: int| 0 <= j < i ==> (#[trigger] r@[j])@ == t@[j].id@,
        decreases t.len() - i,
    {
        r.push(t[i].id.clone());
        i += 1;
    }
    assert(r@.map_values(|s: String| s@) =~= track_ids(t@));
    r
}

/// Appends the rank rows of one ordered list to `rows`: the entity at position `k`
/// gets rank `k`. Fails, leaving `rows` unspecified, if an id has no internal id.
pub fn push_rank_rows(
    rows: &mut Vec<RankRow>,
    user_id: i64,
    time: i64,
    tf: Timeframe,
    ids: &Vec<String>,
    m: &IdMapping,
) -> (r: Result<(), SyncError>)
    requires
        ids.len() <= MAX_RANKED_LIST_LEN,
    ensures
        r is Ok <==> all_mapped(ids@.map_values(|s: String| s@), mapping_contents(*m)),
        r is Err ==> r->Err_0 == SyncError::UnmappedId,
        r is Ok ==> final(rows)@ == old(rows)@ + rank_rows_spec(
            user_id,
            time,
            tf,
            ids@.map_values(|s: String| s@),
            mapping_contents(*m),
        ),
{
    let ghost idv = ids@.map_values(|s: String| s@);
    let ghost mc = mapping_contents(*m);
    let code = map_timeframe_to_timeframe_id(tf);
    let mut k: usize = 0;
    while k < ids.len()
        invariant
            k <= ids.len() <= MAX_RANKED_LIST_LEN,
            idv == ids@.map_values(|s: String| s@),
            mc == mapping_contents(*m),
            code == timeframe_code(tf),
            forall|j: int| 0 <= j < k ==> mc.dom().contains(#[trigger] idv[j]),
            rows@ =~= old(rows)@ + rank_rows_spec(user_id, time, tf, idv, mc).take(k as int),
        decreases ids.len() - k,
    {
        match m.get(&ids[k]) {
            Some(id) => {
                assert(idv[k as int] == ids@[k as int]@);
                rows.push(
                    RankRow {
                        user_id,
                        mapped_spotify_id: id,
                        update_time: time,
                        timeframe: code,
                        ranking: k as u16,
                    },
                );
            },
            None => {
                assert(idv[k as int] == ids@[k as int]@);
                return Err(SyncError::UnmappedId);
            },
        }
        k += 1;
        assert(rows@ =~= old(rows)@ + rank_rows_spec(user_id, time, tf, idv, mc).take(k as int));
    }
    assert(rank_rows_spec(user_id, time, tf, idv, mc).take(k as int) =~= rank_rows_spec(
        user_id,
        time,
        tf,
        idv,
        mc,
    ));
    Ok(())
}

/// The genre tags of an artist; none when the catalog gave none.
pub open spec fn genres_or_empty(a: Artist) -> Seq<String> {
    match a.genres {
        Some(g) => g@,
        None => seq![],
    }
}

/// `m` after recording the genres of each artist in order: the last one seen for an
/// id wins.
pub open spec fn with_genres(m: Map<Seq<char>, Seq<String>>, arts: Seq<Artist>) -> Map<
    Seq<char>,
    Seq<String>,
>
    decreases arts.len(),
{
    if arts.len() == 0 {
        m
    } else {
        with_genres(m, arts.drop_last()).insert(arts.last().id@, genres_or_empty(arts.last()))
    }
}

/// `m` after recording the genres of the artists credited on each track in order.
pub open spec fn with_track_genres(m: Map<Seq<char>, Seq<String>>, ts: Seq<Track>) -> Map<
    Seq<char>,
    Seq<String>,
>
    decreases ts.len(),
{
    if ts.len() == 0 {
        m
    } else {
        with_genres(with_track_genres(m, ts.drop_last()), ts.last().artists@)
    }
}

/// The genres of every artist a snapshot mentions, keyed by external id: first the
/// artist lists (short, medium, long), then the artists credited on the tracks of each
/// track list; the last one seen for an id wins.
pub open spec fn seen_genres(s: Snapshot) -> Map<Seq<char>, Seq<String>> {
    let a = with_genres(
        with_genres(
            with_genres(Map::empty(), s.artists.slot(Timeframe::Short)),
            s.artists.slot(Timeframe::Medium),
        ),
        s.artists.slot(Timeframe::Long),
    );
    with_track_genres(
        with_track_genres(with_track_genres(a, s.tracks.slot(Timeframe::Short)), s.tracks.slot(Timeframe::Medium)),
        s.tracks.slot(Timeframe::Long),
    )
}

/// Whether a list of (id, genres) entries holds exactly the map `m`, each id once.
pub open spec fn represents(e: Seq<(String, Vec<String>)>, m: Map<Seq<char>, Seq<String>>) -> bool {
    &&& forall|i: int, j: int| 0 <= i < j < e.len() ==> (#[trigger] e[i]).0@ != (#[trigger] e[j]).0@
    &&& forall|i: int|
        0 <= i < e.len() ==> m.dom().contains((#[trigger] e[i]).0@) && m[e[i].0@] == e[i].1@
    &&& forall|k: Seq<char>| #[trigger] m.dom().contains(k) ==> exists|i: int| 0 <= i < e.len() && e[i].0@ == k
}

fn copy_strings(v: &Vec<String>) -> (r: Vec<String>)
    ensures
        r@ == v@,
{
    let mut r: Vec<String> = Vec::new();
    let mut i: usize = 0;
    while i < v.len()
        invariant
            i <= v.len(),
            r@ =~= v@.take(i as int),
        decreases v.len() - i,
    {
        r.push(v[i].clone());
        i += 1;
        assert(r@ =~= v@.take(i as int));
    }
    assert(v@.take(i as int) =~= v@);
    r
}

fn genres_of(a: &Artist) -> (r: Vec<String>)
    ensures
        r@ == genres_or_empty(*a),
{
    match &a.genres {
        Some(g) => copy_strings(g),
        None => Vec::new(),
    }
}

/// The genres of each artist seen, keyed by external id, held in a hashbrown map.
// The map sits in an opaque struct: hashbrown's `HashMap` bounds its allocator by a
// trait of `allocator-api2`, which this crate cannot name, so the type cannot be declared.
#[verifier::external_body]
pub struct GenreIndex {
    map: hashbrown::HashMap<String, Vec<String>>,
}

/// What a `GenreIndex` holds: external id (as characters) to genre tags.
pub uninterp spec fn genre_index_contents(g: GenreIndex) -> Map<Seq<char>, Seq<String>>;

impl GenreIndex {
    /// Relies on hashbrown::HashMap::new: the new map holds no entry.
    #[verifier::external_body]
    fn empty() -> (r: GenreIndex)
        ensures
            genre_index_contents(r).dom() == Set::<Seq<char>>::empty(),
    {
        GenreIndex { map: hashbrown::HashMap::new() }
    }

    /// Relies on hashbrown::HashMap::insert: afterwards the key maps to the value and
    /// every other key keeps its entry.
    #[verifier::external_body]
    fn insert(&mut self, k: String, v: Vec<String>)
        ensures
            genre_index_contents(*final(self)) == genre_index_contents(*old(self)).insert(k@, v@),
    {
        self.map.insert(k, v);
    }

    /// Relies on hashbrown::HashMap's owning iterator: it yields every entry of the map
    /// exactly once, in an order the map does not specify.
    #[verifier::external_body]
    fn into_entries(self) -> (r: Vec<(String, Vec<String>)>)
        ensures
            represents(r@, genre_index_contents(self)),
    {
        self.map.into_iter().collect()
    }
}

fn record_genres(index: &mut GenreIndex, arts: &Vec<Artist>)
    ensures
        genre_index_contents(*final(index)) == with_genres(genre_index_contents(*old(index)), arts@),
{
    let ghost m = genre_index_contents(*index);
    let mut i: usize = 0;
    while i < arts.len()
        invariant
            i <= arts.len(),
            genre_index_contents(*index) == with_genres(m, arts@.take(i as int)),
        decreases arts.len() - i,
    {
        assert(arts@.take(i + 1).drop_last() =~= arts@.take(i as int));
        index.insert(arts[i].id.clone(), genres_of(&arts[i]));
        i += 1;
    }
    assert(arts@.take(i as int) =~= arts@);
}

fn record_track_genres(index: &mut GenreIndex, ts: &Vec<Track>)
    ensures
        genre_index_contents(*final(index)) == with_track_genres(genre_index_contents(*old(index)), ts@),
{
    let ghost m = genre_index_contents(*index);
    let mut i: usize = 0;
    while i < ts.len()
        invariant
            i <= ts.len(),
            genre_index_contents(*index) == with_track_genres(m, ts@.take(i as int)),
        decreases ts.len() - i,
    {
        assert(ts@.take(i + 1).drop_last() =~= ts@.take(i as int));
        record_genres(index, &ts[i].artists);
        i += 1;
    }
    assert(ts@.take(i as int) =~= ts@);
}

/// The genres of every artist the snapshot mentions, one entry per external id, in no
/// particular order; where an artist appears more than once the last occurrence wins.
pub fn genres_by_artist_id(s: &Snapshot) -> (r: Vec<(String, Vec<String>)>)
    ensures
        represents(r@, seen_genres(*s)),
{
    let mut index = GenreIndex::empty();
    assert(genre_index_contents(index) =~= Map::<Seq<char>, Seq<String>>::empty());
    record_genres(&mut index, s.artists.get(Timeframe::Short));
    record_genres(&mut index, s.artists.get(Timeframe::Medium));
    record_genres(&mut index, s.artists.get(Timeframe::Long));
    record_track_genres(&mut index, s.tracks.get(Timeframe::Short));
    record_track_genres(&mut index, s.tracks.get(Timeframe::Medium));
    record_track_genres(&mut index, s.tracks.get(Timeframe::Long));
    index.into_entries()
}

/// The external ids of the entries, in order.
pub open spec fn entry_ids(e: Seq<(String, Vec<String>)>) -> Seq<Seq<char>> {
    e.map_values(|p: (String, Vec<String>)| p.0@)
}

/// The ids of the entries, in order: with `genres_by_artist_id` these are the artist ids
/// to be mapped, each once.
pub fn artist_ids_of_entries(e: &Vec<(String, Vec<String>)>) -> (r: Vec<String>)
    ensures
        r@.map_values(|s: String| s@) == entry_ids(e@),
{
    let mut r: Vec<String> = Vec::new();
    let mut i: usize = 0;
    while i < e.len()
        invariant
            i <= e.len(),
            r.len() == i,
            forall|j: int| 0 <= j < i ==> (#[trigger] r@[j])@ == e@[j].0@,
        decreases e.len() - i,
    {
        r.push(e[i].0.clone());
        i += 1;
    }
    assert(r@.map_values(|s: String| s@) =~= entry_ids(e@));
    r
}

/// The ids of every track of the snapshot: short, medium, then long.
pub fn collect_track_ids(s: &Snapshot) -> (r: Vec<String>)
    ensures
        r@.map_values(|x: String| x@) == track_ids(s.tracks.slot(Timeframe::Short)) + track_ids(
            s.tracks.slot(Timeframe::Medium),
        ) + track_ids(s.tracks.slot(Timeframe::Long)),
{
    let mut r = ids_of_tracks(s.tracks.get(Timeframe::Short));
    let mut m = ids_of_tracks(s.tracks.get(Timeframe::Medium));
    let mut l = ids_of_tracks(s.tracks.get(Timeframe::Long));
    let ghost (rv, mv, lv) = (r@, m@, l@);
    r.append(&mut m);
    r.append(&mut l);
    assert(r@.map_values(|x: String| x@) =~= rv.map_values(|x: String| x@) + mv.map_values(
        |x: String| x@,
    ) + lv.map_values(|x: String| x@));
    r
}

/// The (track, artist) pairs of one track, one per credited artist, in credit order.
pub open spec fn pairs_of_track(t: Track, am: Map<Seq<char>, i32>, tm: Map<Seq<char>, i32>) -> Seq<
    TrackArtistPair,
> {
    Seq::new(
        t.artists.len() as nat,
        |j: int| TrackArtistPair { track_id: tm[t.id@], artist_id: am[t.artists@[j].id@] },
    )
}

/// The (track, artist) pairs of a list of tracks, in order.
pub open spec fn pairs_of_tracks(ts: Seq<Track>, am: Map<Seq<char>, i32>, tm: Map<Seq<char>, i32>) -> Seq<
    TrackArtistPair,
>
    decreases ts.len(),
{
    if ts.len() == 0 {
        seq![]
    } else {
        pairs_of_tracks(ts.drop_last(), am, tm) + pairs_of_track(ts.last(), am, tm)
    }
}

/// Whether every track of the list and every artist it credits is mapped.
pub open spec fn tracks_mapped(ts: Seq<Track>, am: Map<Seq<char>, i32>, tm: Map<Seq<char>, i32>) -> bool {
    forall|i: int|
        0 <= i < ts.len() ==> tm.dom().contains((#[trigger] ts[i]).id@) && all_mapped(
            artist_ids(ts[i].artists@),
            am,
        )
}

/// Appends the (track, artist) pairs of the tracks to `rows`. Fails, leaving `rows`
/// unspecified, if a track or a credited artist has no internal id.
pub fn push_track_artist_pairs(
    rows: &mut Vec<TrackArtistPair>,
    ts: &Vec<Track>,
    am: &IdMapping,
    tm: &IdMapping,
) -> (r: Result<(), SyncError>)
    ensures
        r is Ok <==> tracks_mapped(ts@, mapping_contents(*am), mapping_contents(*tm)),
        r is Err ==> r->Err_0 == SyncError::UnmappedId,
        r is Ok ==> final(rows)@ == old(rows)@ + pairs_of_tracks(
            ts@,
            mapping_contents(*am),
            mapping_contents(*tm),
        ),
{
    let ghost amc = mapping_contents(*am);
    let ghost tmc = mapping_contents(*tm);
    let mut i: usize = 0;
    while i < ts.len()
        invariant
            i <= ts.len(),
            amc == mapping_contents(*am),
            tmc == mapping_contents(*tm),
            tracks_mapped(ts@.take(i as int), amc, tmc),
            rows@ == old(rows)@ + pairs_of_tracks(ts@.take(i as int), amc, tmc),
        decreases ts.len() - i,
    {
        let t = &ts[i];
        let track_id = match tm.get(&t.id) {
            Some(id) => id,
            None => {
                assert(!tmc.dom().contains(ts@[i as int].id@));
                return Err(SyncError::UnmappedId);
            },
        };
        let ghost start = rows@;
        let mut j: usize = 0;
        while j < t.artists.len()
            invariant
                j <= t.artists.len(),
                i < ts.len(),
                amc == mapping_contents(*am),
                tmc.dom().contains(t.id@),
                *t == ts@[i as int],
                track_id == tmc[t.id@],
                forall|x: int| 0 <= x < j ==> amc.dom().contains(#[trigger] t.artists@[x].id@),
                rows@ =~= start + pairs_of_track(*t, amc, tmc).take(j as int),
            decreases t.artists.len() - j,
        {
            match am.get(&t.artists[j].id) {
                Some(artist_id) => {
                    rows.push(TrackArtistPair { track_id, artist_id });
                },
                None => {
                    assert(artist_ids(t.artists@)[j as int] == t.artists@[j as int].id@);
                    assert(!all_mapped(artist_ids(ts@[i as int].artists@), amc));
                    return Err(SyncError::UnmappedId);
                },
            }
            j += 1;
            assert(rows@ =~= start + pairs_of_track(*t, amc, tmc).take(j as int));
        }
        proof {
            assert(pairs_of_track(*t, amc, tmc).take(j as int) =~= pairs_of_track(*t, amc, tmc));
            assert(ts@.take(i + 1).drop_last() =~= ts@.take(i as int));
            assert(all_mapped(artist_ids(t.artists@), amc));
            assert(tracks_mapped(ts@.take(i + 1), amc, tmc));
        }
        i += 1;
    }
    assert(ts@.take(i as int) =~= ts@);
    Ok(())
}

/// The (artist, genre) rows of one entry.
pub open spec fn genre_rows_of_entry(p: (String, Vec<String>), am: Map<Seq<char>, i32>) -> Seq<
    (i32, Seq<char>),
> {
    p.1@.map_values(|g: String| (am[p.0@], g@))
}

/// The (artist, genre) rows of all entries, in order.
pub open spec fn genre_rows(e: Seq<(String, Vec<String>)>, am: Map<Seq<char>, i32>) -> Seq<(i32, Seq<char>)>
    decreases e.len(),
{
    if e.len() == 0 {
        seq![]
    } else {
        genre_rows(e.drop_last(), am) + genre_rows_of_entry(e.last(), am)
    }
}

/// Genre rows as (artist, genre) values.
pub open spec fn genre_row_view(r: Seq<ArtistGenrePair>) -> Seq<(i32, Seq<char>)> {
    r.map_values(|p: ArtistGenrePair| (p.artist_id, p.genre@))
}

/// The internal ids of the entries, in order.
pub open spec fn mapped_entry_ids(e: Seq<(String, Vec<String>)>, am: Map<Seq<char>, i32>) -> Seq<i32> {
    e.map_values(|p: (String, Vec<String>)| am[p.0@])
}

/// The artists whose genres are replaced, and their new genre rows. Fails if an
/// entry's id has no internal id.
pub fn genre_replacement(e: &Vec<(String, Vec<String>)>, am: &IdMapping) -> (r: Result<
    (Vec<i32>, Vec<ArtistGenrePair>),
    SyncError,
>)
    ensures
        r is Ok <==> all_mapped(entry_ids(e@), mapping_contents(*am)),
        r is Err ==> r->Err_0 == SyncError::UnmappedId,
        r is Ok ==> {
            &&& r->Ok_0.0@ == mapped_entry_ids(e@, mapping_contents(*am))
            &&& genre_row_view(r->Ok_0.1@) == genre_rows(e@, mapping_contents(*am))
        },
{
    let ghost amc = mapping_contents(*am);
    let mut artists: Vec<i32> = Vec::new();
    let mut rows: Vec<ArtistGenrePair> = Vec::new();
    let mut i: usize = 0;
    while i < e.len()
        invariant
            i <= e.len(),
            amc == mapping_contents(*am),
            all_mapped(entry_ids(e@.take(i as int)), amc),
            artists@ =~= mapped_entry_ids(e@.take(i as int), amc),
            genre_row_view(rows@) =~= genre_rows(e@.take(i as int), amc),
        decreases e.len() - i,
    {
        let artist_id = match am.get(&e[i].0) {
            Some(id) => id,
            None => {
                assert(entry_ids(e@)[i as int] == e@[i as int].0@);
                return Err(SyncError::UnmappedId);
            },
        };
        let ghost start = rows@;
        let genres = &e[i].1;
        let mut j: usize = 0;
        while j < genres.len()
            invariant
                j <= genres.len(),
                i < e.len(),
                *genres == e@[i as int].1,
                amc.dom().contains(e@[i as int].0@),
                artist_id == amc[e@[i as int].0@],
                genre_row_view(rows@) =~= genre_row_view(start) + genre_rows_of_entry(e@[i as int], amc).take(
                    j as int,
                ),
            decreases genres.len() - j,
        {
            let ghost before = rows@;
            rows.push(ArtistGenrePair { artist_id, genre: genres[j].clone() });
            assert(genre_row_view(rows@) =~= genre_row_view(before).push((artist_id, genres@[j as int]@)));
            j += 1;
            assert(genre_row_view(rows@) =~= genre_row_view(start) + genre_rows_of_entry(
                e@[i as int],
                amc,
            ).take(j as int));
        }
        artists.push(artist_id);
        proof {
            assert(genre_rows_of_entry(e@[i as int], amc).take(j as int) =~= genre_rows_of_entry(
                e@[i as int],
                amc,
            ));
            assert(e@.take(i + 1).drop_last() =~= e@.take(i as int));
            assert(entry_ids(e@.take(i + 1))[i as int] == e@[i as int].0@);
            assert forall|x: int| 0 <= x < i + 1 implies amc.dom().contains(
                #[trigger] entry_ids(e@.take(i + 1))[x],
            ) by {
                if x < i {
                    assert(entry_ids(e@.take(i + 1))[x] == entry_ids(e@.take(i as int))[x]);
                }
            }
        }
        i += 1;
    }
    assert(e@.take(i as int) =~= e@);
    Ok((artists, rows))
}

/// Everything the store receives for one snapshot of one user.
pub struct PersistPlan {
    pub user_id: i64,
    pub update_time: i64,
    /// Appended to the artist rank history.
    pub artist_ranks: Vec<RankRow>,
    /// Inserted unless already present.
    pub track_artists: Vec<TrackArtistPair>,
    /// The artists whose genre rows are all replaced, in one transaction, by `artist_genres`.
    pub genre_artists: Vec<i32>,
    pub artist_genres: Vec<ArtistGenrePair>,
    /// Appended to the track rank history.
    pub track_ranks: Vec<RankRow>,
}

/// Whether every list of the snapshot fits the rank column.
pub open spec fn lists_fit(s: Snapshot) -> bool {
    forall|tf: Timeframe|
        (#[trigger] s.artists.slot(tf)).len() <= MAX_RANKED_LIST_LEN && s.tracks.slot(tf).len()
            <= MAX_RANKED_LIST_LEN
}

/// Whether the mappings hold every id the snapshot and its genre entries refer to.
pub open spec fn snapshot_mapped(
    s: Snapshot,
    genres: Seq<(String, Vec<String>)>,
    am: Map<Seq<char>, i32>,
    tm: Map<Seq<char>, i32>,
) -> bool {
    &&& all_mapped(entry_ids(genres), am)
    &&& forall|tf: Timeframe| #[trigger] all_mapped(artist_ids(s.artists.slot(tf)), am)
    &&& forall|tf: Timeframe| #[trigger] tracks_mapped(s.tracks.slot(tf), am, tm)
}

/// The artist rank rows of a snapshot: short, medium, then long.
pub open spec fn planned_artist_ranks(user_id: i64, s: Snapshot, am: Map<Seq<char>, i32>) -> Seq<RankRow> {
    all_rank_rows(user_id, s.last_update_time, |tf: Timeframe| artist_ids(s.artists.slot(tf)), am)
}

/// The track rank rows of a snapshot: short, medium, then long.
pub open spec fn planned_track_ranks(user_id: i64, s: Snapshot, tm: Map<Seq<char>, i32>) -> Seq<RankRow> {
    all_rank_rows(user_id, s.last_update_time, |tf: Timeframe| track_ids(s.tracks.slot(tf)), tm)
}

/// The (track, artist) pairs of a snapshot: short, medium, then long.
pub open spec fn planned_track_artists(s: Snapshot, am: Map<Seq<char>, i32>, tm: Map<Seq<char>, i32>) -> Seq<
    TrackArtistPair,
> {
    pairs_of_tracks(s.tracks.slot(Timeframe::Short), am, tm) + pairs_of_tracks(
        s.tracks.slot(Timeframe::Medium),
        am,
        tm,
    ) + pairs_of_tracks(s.tracks.slot(Timeframe::Long), am, tm)
}

/// Turns a snapshot of one user into the rows the store receives, given the
/// genre entries of `genres_by_artist_id` and the internal ids of the artists and
/// tracks. Each list position becomes a rank row with that position as rank; every
/// credited artist of every track becomes a pair; every artist seen has its genres
/// replaced by the ones of its entry. Fails if some id has no internal id.
pub fn plan_persist(
    user_id: i64,
    s: &Snapshot,
    genres: &Vec<(String, Vec<String>)>,
    am: &IdMapping,
    tm: &IdMapping,
) -> (r: Result<PersistPlan, SyncError>)
    requires
        lists_fit(*s),
    ensures
        r is Ok <==> snapshot_mapped(*s, genres@, mapping_contents(*am), mapping_contents(*tm)),
        r is Err ==> r->Err_0 == SyncError::UnmappedId,
        r is Ok ==> {
            let p = r->Ok_0;
            &&& p.user_id == user_id
            &&& p.update_time == s.last_update_time
            &&& p.artist_ranks@ == planned_artist_ranks(user_id, *s, mapping_contents(*am))
            &&& p.track_artists@ == planned_track_artists(*s, mapping_contents(*am), mapping_contents(*tm))
            &&& p.genre_artists@ == mapped_entry_ids(genres@, mapping_contents(*am))
            &&& genre_row_view(p.artist_genres@) == genre_rows(genres@, mapping_contents(*am))
            &&& p.track_ranks@ == planned_track_ranks(user_id, *s, mapping_contents(*tm))
        },
{
    let ghost amc = mapping_contents(*am);
    let ghost tmc = mapping_contents(*tm);
    let time = s.last_update_time;
    assert(s.artists.slot(Timeframe::Short).len() <= MAX_RANKED_LIST_LEN);
    assert(s.artists.slot(Timeframe::Medium).len() <= MAX_RANKED_LIST_LEN);
    assert(s.artists.slot(Timeframe::Long).len() <= MAX_RANKED_LIST_LEN);
    let mut artist_ranks: Vec<RankRow> = Vec::new();
    let short_ids = ids_of_artists(s.artists.get(Timeframe::Short));
    let medium_ids = ids_of_artists(s.artists.get(Timeframe::Medium));
    let long_ids = ids_of_artists(s.artists.get(Timeframe::Long));
    let r1 = push_rank_rows(&mut artist_ranks, user_id, time, Timeframe::Short, &short_ids, am);
    let r2 = if r1.is_ok() {
        push_rank_rows(&mut artist_ranks, user_id, time, Timeframe::Medium, &medium_ids, am)
    } else {
        r1
    };
    let r3 = if r2.is_ok() {
        push_rank_rows(&mut artist_ranks, user_id, time, Timeframe::Long, &long_ids, am)
    } else {
        r2
    };
    if r3.is_err() {
        assert(!snapshot_mapped(*s, genres@, amc, tmc)) by {
            if r1.is_err() {
                assert(!all_mapped(artist_ids(s.artists.slot(Timeframe::Short)), amc));
            } else if r2.is_err() {
                assert(!all_mapped(artist_ids(s.artists.slot(Timeframe::Medium)), amc));
            } else {
                assert(!all_mapped(artist_ids(s.artists.slot(Timeframe::Long)), amc));
            }
        }
        return Err(SyncError::UnmappedId);
    }
    assert(artist_ranks@ =~= planned_artist_ranks(user_id, *s, amc));

    let mut track_artists: Vec<TrackArtistPair> = Vec::new();
    let t1 = push_track_artist_pairs(&mut track_artists, s.tracks.get(Timeframe::Short), am, tm);
    let t2 = if t1.is_ok() {
        push_track_artist_pairs(&mut track_artists, s.tracks.get(Timeframe::Medium), am, tm)
    } else {
        t1
    };
    let t3 = if t2.is_ok() {
        push_track_artist_pairs(&mut track_artists, s.tracks.get(Timeframe::Long), am, tm)
    } else {
        t2
    };
    if t3.is_err() {
        assert(!snapshot_mapped(*s, genres@, amc, tmc)) by {
            if t1.is_err() {
                assert(!tracks_mapped(s.tracks.slot(Timeframe::Short), amc, tmc));
            } else if t2.is_err() {
                assert(!tracks_mapped(s.tracks.slot(Timeframe::Medium), amc, tmc));
            } else {
                assert(!tracks_mapped(s.tracks.slot(Timeframe::Long), amc, tmc));
            }
        }
        return Err(SyncError::UnmappedId);
    }
    assert(track_artists@ =~= planned_track_artists(*s, amc, tmc));

    let (genre_artists, artist_genres) = match genre_replacement(genres, am) {
        Ok(g) => g,
        Err(e) => {
            return Err(e);
        },
    };

    let mut track_ranks: Vec<RankRow> = Vec::new();
    let short_tracks = ids_of_tracks(s.tracks.get(Timeframe::Short));
    let medium_tracks = ids_of_tracks(s.tracks.get(Timeframe::Medium));
    let long_tracks = ids_of_tracks(s.tracks.get(Timeframe::Long));
    assert(s.tracks.slot(Timeframe::Short).len() <= MAX_RANKED_LIST_LEN);
    assert(s.tracks.slot(Timeframe::Medium).len() <= MAX_RANKED_LIST_LEN);
    assert(s.tracks.slot(Timeframe::Long).len() <= MAX_RANKED_LIST_LEN);
    let u1 = push_rank_rows(&mut track_ranks, user_id, time, Timeframe::Short, &short_tracks, tm);
    let u2 = push_rank_rows(&mut track_ranks, user_id, time, Timeframe::Medium, &medium_tracks, tm);
    let u3 = push_rank_rows(&mut track_ranks, user_id, time, Timeframe::Long, &long_tracks, tm);
    proof {
        lemma_tracks_mapped_ids(s.tracks.slot(Timeframe::Short), amc, tmc);
        lemma_tracks_mapped_ids(s.tracks.slot(Timeframe::Medium), amc, tmc);
        lemma_tracks_mapped_ids(s.tracks.slot(Timeframe::Long), amc, tmc);
    }
    assert(u1.is_ok() && u2.is_ok() && u3.is_ok());
    assert(track_ranks@ =~= planned_track_ranks(user_id, *s, tmc));
    Ok(PersistPlan {
        user_id,
        update_time: time,
        artist_ranks,
        track_artists,
        genre_artists,
        artist_genres,
        track_ranks,
    })
}

proof fn lemma_tracks_mapped_ids(ts: Seq<Track>, am: Map<Seq<char>, i32>, tm: Map<Seq<char>, i32>)
    requires
        tracks_mapped(ts, am, tm),
    ensures
        all_mapped(track_ids(ts), tm),
{
    assert forall|i: int| 0 <= i < ts.len() implies tm.dom().contains(#[trigger] track_ids(ts)[i]) by {
        assert(tm.dom().contains(ts[i].id@));
    }
}

/// The tables a plan writes to, as values.
pub struct StoreModel {
    pub artist_ranks: Seq<RankRow>,
    pub track_ranks: Seq<RankRow>,
    pub track_artists: Set<TrackArtistPair>,
    pub artist_genres: Set<(i32, Seq<char>)>,
    /// User id to last-synced time.
    pub last_update: Map<i64, i64>,
}

/// The store after a plan is carried out: rank rows are appended to the history,
/// track/artist pairs inserted unless present, the genre rows of every replaced artist
/// deleted and the new ones inserted, and the user's last-synced time set to the
/// snapshot's time if the user exists.
pub open spec fn apply_plan(db: StoreModel, p: PersistPlan) -> StoreModel {
    StoreModel {
        artist_ranks: db.artist_ranks + p.artist_ranks@,
        track_ranks: db.track_ranks + p.track_ranks@,
        track_artists: db.track_artists.union(p.track_artists@.to_set()),
        artist_genres: db.artist_genres.filter(
            |row: (i32, Seq<char>)| !p.genre_artists@.contains(row.0),
        ).union(genre_row_view(p.artist_genres@).to_set()),
        last_update: if db.last_update.dom().contains(p.user_id) {
            db.last_update.insert(p.user_id, p.update_time)
        } else {
            db.last_update
        },
    }
}

/// Each position of a ranked list becomes a row with that position as rank and the
/// timeframe's code, in list order.
pub proof fn lemma_rank_rows_follow_positions(
    user_id: i64,
    time: i64,
    tf: Timeframe,
    ids: Seq<Seq<char>>,
    m: Map<Seq<char>, i32>,
)
    requires
        ids.len() <= MAX_RANKED_LIST_LEN,
    ensures
        rank_rows_spec(user_id, time, tf, ids, m).len() == ids.len(),
        forall|k: int|
            0 <= k < ids.len() ==> {
                let row = #[trigger] rank_rows_spec(user_id, time, tf, ids, m)[k];
                &&& row.ranking as int == k
                &&& row.timeframe == timeframe_code(tf)
                &&& row.mapped_spotify_id == m[ids[k]]
                &&& row.user_id == user_id
                &&& row.update_time == time
            },
{
    assert forall|k: int| 0 <= k < ids.len() implies (#[trigger] rank_rows_spec(user_id, time, tf, ids, m)[k]).ranking as int == k by {
        assert(0 <= k < 65536);
    }
}

/// After a plan, the genre rows of an artist it replaces are exactly the plan's rows for
/// that artist: none of its earlier genres survive.
pub proof fn lemma_genre_replace(db: StoreModel, p: PersistPlan, artist: i32)
    requires
        p.genre_artists@.contains(artist),
    ensures
        forall|g: Seq<char>|
            #[trigger] apply_plan(db, p).artist_genres.contains((artist, g)) <==> genre_row_view(
                p.artist_genres@,
            ).contains((artist, g)),
{
}

proof fn lemma_concat_contains<A>(s1: Seq<A>, s2: Seq<A>, v: A)
    ensures
        (s1 + s2).contains(v) <==> s1.contains(v) || s2.contains(v),
{
    if (s1 + s2).contains(v) {
        let x = choose|x: int| 0 <= x < (s1 + s2).len() && (s1 + s2)[x] == v;
        if x < s1.len() {
            assert(s1[x] == v);
        } else {
            assert(s2[x - s1.len()] == v);
        }
    }
    if s1.contains(v) {
        let x = choose|x: int| 0 <= x < s1.len() && s1[x] == v;
        assert((s1 + s2)[x] == v);
    }
    if s2.contains(v) {
        let x = choose|x: int| 0 <= x < s2.len() && s2[x] == v;
        assert((s1 + s2)[x + s1.len()] == v);
    }
}

proof fn lemma_entry_rows_contains(p: (String, Vec<String>), am: Map<Seq<char>, i32>, a: i32, g: Seq<char>)
    ensures
        genre_rows_of_entry(p, am).contains((a, g)) <==> am[p.0@] == a && p.1@.map_values(
            |s: String| s@,
        ).contains(g),
{
    let rows = genre_rows_of_entry(p, am);
    let gs = p.1@.map_values(|s: String| s@);
    if rows.contains((a, g)) {
        let x = choose|x: int| 0 <= x < rows.len() && rows[x] == (a, g);
        assert(gs[x] == g);
    }
    if am[p.0@] == a && gs.contains(g) {
        let x = choose|x: int| 0 <= x < gs.len() && gs[x] == g;
        assert(rows[x] == (a, g));
    }
}

/// The genre rows for an artist are the genres of the entries that map to it.
pub proof fn lemma_genre_rows_contains(e: Seq<(String, Vec<String>)>, am: Map<Seq<char>, i32>, a: i32, g: Seq<char>)
    ensures
        genre_rows(e, am).contains((a, g)) <==> exists|i: int|
            0 <= i < e.len() && am[(#[trigger] e[i]).0@] == a && e[i].1@.map_values(|s: String| s@).contains(g),
    decreases e.len(),
{
    if e.len() > 0 {
        let d = e.drop_last();
        lemma_genre_rows_contains(d, am, a, g);
        lemma_concat_contains(genre_rows(d, am), genre_rows_of_entry(e.last(), am), (a, g));
        lemma_entry_rows_contains(e.last(), am, a, g);
        if genre_rows(d, am).contains((a, g)) {
            let i = choose|i: int|
                0 <= i < d.len() && am[(#[trigger] d[i]).0@] == a && d[i].1@.map_values(|s: String| s@).contains(g);
            assert(e[i] == d[i]);
        }
        if genre_rows_of_entry(e.last(), am).contains((a, g)) {
            assert(e[e.len() - 1] == e.last());
        }
        if exists|i: int|
            0 <= i < e.len() && am[(#[trigger] e[i]).0@] == a && e[i].1@.map_values(|s: String| s@).contains(g) {
            let i = choose|i: int|
                0 <= i < e.len() && am[(#[trigger] e[i]).0@] == a && e[i].1@.map_values(|s: String| s@).contains(g);
            if i < e.len() - 1 {
                assert(d[i] == e[i]);
            }
        }
    }
}

/// When no two entries share an internal id, a plan's genre rows for an entry's artist
/// are exactly that entry's genres.
pub proof fn lemma_genre_rows_of_artist(e: Seq<(String, Vec<String>)>, am: Map<Seq<char>, i32>, i: int, g: Seq<char>)
    requires
        0 <= i < e.len(),
        forall|x: int, y: int| 0 <= x < e.len() && 0 <= y < e.len() && x != y ==> am[(#[trigger] e[x]).0@] != am[(#[trigger] e[y]).0@],
    ensures
        genre_rows(e, am).contains((am[e[i].0@], g)) <==> e[i].1@.map_values(|s: String| s@).contains(g),
{
    lemma_genre_rows_contains(e, am, am[e[i].0@], g);
}

/// Inserting the same track/artist pairs again changes nothing: each pair is held once.
pub proof fn lemma_track_artist_insert_or_ignore(db: StoreModel, p: PersistPlan)
    ensures
        apply_plan(apply_plan(db, p), p).track_artists == apply_plan(db, p).track_artists,
        forall|pair: TrackArtistPair|
            #[trigger] p.track_artists@.contains(pair) ==> apply_plan(db, p).track_artists.contains(pair),
{
    assert(apply_plan(apply_plan(db, p), p).track_artists =~= apply_plan(db, p).track_artists);
}

/// Rank rows are history: carrying out the same plan twice appends its rows twice and
/// never overwrites earlier rows.
pub proof fn lemma_rank_history_accumulates(db: StoreModel, p: PersistPlan)
    ensures
        apply_plan(apply_plan(db, p), p).artist_ranks == db.artist_ranks + p.artist_ranks@ + p.artist_ranks@,
        apply_plan(apply_plan(db, p), p).track_ranks == db.track_ranks + p.track_ranks@ + p.track_ranks@,
        apply_plan(apply_plan(db, p), p).artist_ranks.len() == db.artist_ranks.len() + 2 * p.artist_ranks@.len(),
        apply_plan(db, p).artist_ranks.take(db.artist_ranks.len() as int) == db.artist_ranks,
{
    assert((db.artist_ranks + p.artist_ranks@).take(db.artist_ranks.len() as int) =~= db.artist_ranks);
}

/// The user's last-synced time becomes the snapshot's time, whatever it was before:
/// an earlier snapshot time moves it back.
pub proof fn lemma_last_update_is_snapshot_time(db: StoreModel, p: PersistPlan)
    requires
        db.last_update.dom().contains(p.user_id),
    ensures
        apply_plan(db, p).last_update[p.user_id] == p.update_time,
        forall|u: i64| u != p.user_id ==> #[trigger] apply_plan(db, p).last_update.dom().contains(u)
            == db.last_update.dom().contains(u),
{
}

} // verus!
