//! The entities a sync reads, the snapshot of one fan-out round, and the assembly of
//! that snapshot from the six per-slot upstream replies.
use vstd::prelude::*;
use crate::error::SyncError;
use crate::timeframe::{EntityKind, Timeframe};

verus! {

/// An artist as the catalog reports it, reduced to what persistence needs.
pub struct Artist {
    pub id: String,
    /// Genre tags; the catalog omits them in some payloads.
    pub genres: Option<Vec<String>>,
}

/// A track as the catalog reports it, with the artists it credits.
pub struct Track {
    pub id: String,
    pub artists: Vec<Artist>,
}

/// One ranked list per timeframe, each in the catalog's own order.
pub struct TimeFrames<T> {
    pub short: Vec<T>,
    pub medium: Vec<T>,
    pub long: Vec<T>,
}

impl<T> TimeFrames<T> {
    /// The list held for a timeframe.
    pub open spec fn slot(self, tf: Timeframe) -> Seq<T> {
        match tf {
            Timeframe::Short => self.short@,
            Timeframe::Medium => self.medium@,
            Timeframe::Long => self.long@,
        }
    }

    /// Three empty lists.
    pub fn new() -> (r: TimeFrames<T>)
        ensures
            forall|tf: Timeframe| (#[trigger] r.slot(tf)).len() == 0,
    {
        TimeFrames { short: Vec::new(), medium: Vec::new(), long: Vec::new() }
    }

    /// The list held for a timeframe.
    pub fn get(&self, tf: Timeframe) -> (r: &Vec<T>)
        ensures
            r@ == self.slot(tf),
    {
        match tf {
            Timeframe::Short => &self.short,
            Timeframe::Medium => &self.medium,
            Timeframe::Long => &self.long,
        }
    }

    /// Appends one item to the list of a timeframe.
    pub fn add_item(&mut self, tf: Timeframe, item: T)
        ensures
            final(self).slot(tf) == old(self).slot(tf).push(item),
            forall|o: Timeframe| o != tf ==> #[trigger] final(self).slot(o) == old(self).slot(o),
    {
        match tf {
            Timeframe::Short => self.short.push(item),
            Timeframe::Medium => self.medium.push(item),
            Timeframe::Long => self.long.push(item),
        }
    }

    /// Appends a whole list to the list of a timeframe, keeping its order.
    pub fn extend_slot(&mut self, tf: Timeframe, items: Vec<T>)
        ensures
            final(self).slot(tf) == old(self).slot(tf) + items@,
            forall|o: Timeframe| o != tf ==> #[trigger] final(self).slot(o) == old(self).slot(o),
    {
        let mut items = items;
        match tf {
            Timeframe::Short => self.short.append(&mut items),
            Timeframe::Medium => self.medium.append(&mut items),
            Timeframe::Long => self.long.append(&mut items),
        }
    }
}

/// The result of one fan-out round for one user: six ranked lists and the single
/// time, taken before the requests went out, at which they all hold.
pub struct Snapshot {
    pub last_update_time: i64,
    pub tracks: TimeFrames<Track>,
    pub artists: TimeFrames<Artist>,
}

/// The payload of one successful top-entities request.
pub enum TopEntities {
    Tracks(Vec<Track>),
    Artists(Vec<Artist>),
}

/// What one of the concurrent requests reported.
pub struct FanOutReport {
    pub timeframe: Timeframe,
    pub result: Result<TopEntities, SyncError>,
}

/// The first failure among the reports, in the order they were collected.
pub open spec fn first_error(reports: Seq<FanOutReport>) -> Option<SyncError>
    decreases reports.len(),
{
    if reports.len() == 0 {
        None
    } else {
        match first_error(reports.drop_last()) {
            Some(e) => Some(e),
            None => match reports.last().result {
                Err(e) => Some(e),
                Ok(_) => None,
            },
        }
    }
}

/// The tracks the reports give for a timeframe, in collection order.
pub open spec fn track_slot(reports: Seq<FanOutReport>, tf: Timeframe) -> Seq<Track>
    decreases reports.len(),
{
    if reports.len() == 0 {
        seq![]
    } else {
        let last = reports.last();
        track_slot(reports.drop_last(), tf) + match last.result {
            Ok(TopEntities::Tracks(v)) => if last.timeframe == tf { v@ } else { seq![] },
            _ => seq![],
        }
    }
}

/// The artists the reports give for a timeframe, in collection order.
pub open spec fn artist_slot(reports: Seq<FanOutReport>, tf: Timeframe) -> Seq<Artist>
    decreases reports.len(),
{
    if reports.len() == 0 {
        seq![]
    } else {
        let last = reports.last();
        artist_slot(reports.drop_last(), tf) + match last.result {
            Ok(TopEntities::Artists(v)) => if last.timeframe == tf { v@ } else { seq![] },
            _ => seq![],
        }
    }
}

/// The six (entity kind, timeframe) requests of one fan-out round.
pub fn fan_out_requests() -> (r: Vec<(EntityKind, Timeframe)>)
    ensures
        r.len() == 6,
        forall|i: int, j: int| 0 <= i < j < r.len() ==> r[i] != r[j],
        forall|k: EntityKind, tf: Timeframe| #[trigger] r@.contains((k, tf)),
{
    let r = vec![
        (EntityKind::Tracks, Timeframe::Short),
        (EntityKind::Tracks, Timeframe::Medium),
        (EntityKind::Tracks, Timeframe::Long),
        (EntityKind::Artists, Timeframe::Short),
        (EntityKind::Artists, Timeframe::Medium),
        (EntityKind::Artists, Timeframe::Long),
    ];
    assert forall|k: EntityKind, tf: Timeframe| #[trigger] r@.contains((k, tf)) by {
        let i: int = match (k, tf) {
            (EntityKind::Tracks, Timeframe::Short) => 0,
            (EntityKind::Tracks, Timeframe::Medium) => 1,
            (EntityKind::Tracks, Timeframe::Long) => 2,
            (EntityKind::Artists, Timeframe::Short) => 3,
            (EntityKind::Artists, Timeframe::Medium) => 4,
            (EntityKind::Artists, Timeframe::Long) => 5,
        };
        assert(r@[i] == (k, tf));
    }
    r
}

/// Combines the reports of one fan-out round, all of them collected, into a snapshot
/// stamped `now`. If any report failed the round fails with the first failure in
/// collection order, and no snapshot, partial or whole, is returned.
pub fn assemble_snapshot(now: i64, reports: Vec<FanOutReport>) -> (r: Result<Snapshot, SyncError>)
    ensures
        r is Err <==> first_error(reports@) is Some,
        r is Err ==> r->Err_0 == first_error(reports@)->Some_0,
        r is Ok ==> {
            &&& r->Ok_0.last_update_time == now
            &&& forall|tf: Timeframe| #[trigger] r->Ok_0.tracks.slot(tf) == track_slot(reports@, tf)
            &&& forall|tf: Timeframe| #[trigger] r->Ok_0.artists.slot(tf) == artist_slot(reports@, tf)
        },
{
    let ghost all = reports@;
    assert(all.len() == reports.len());
    let mut rest = reports;
    let mut tracks: TimeFrames<Track> = TimeFrames::new();
    let mut artists: TimeFrames<Artist> = TimeFrames::new();
    let mut failure: Option<SyncError> = None;
    let mut n: usize = 0;
    while rest.len() > 0
        invariant
            n + rest@.len() == all.len(),
            all.len() <= usize::MAX,
            rest@ == all.skip(n as int),
            failure == first_error(all.take(n as int)),
            failure is None ==> forall|tf: Timeframe| #[trigger] tracks.slot(tf) == track_slot(all.take(n as int), tf),
            failure is None ==> forall|tf: Timeframe| #[trigger] artists.slot(tf) == artist_slot(all.take(n as int), tf),
        decreases rest.len(),
    {
        let report = rest.remove(0);
        proof {
            assert(report == all[n as int]);
            assert(all.take(n + 1).drop_last() =~= all.take(n as int));
            assert(rest@ =~= all.skip(n + 1));
        }
        if failure.is_none() {
            match report.result {
                Err(e) => {
                    failure = Some(e);
                },
                Ok(TopEntities::Tracks(v)) => {
                    tracks.extend_slot(report.timeframe, v);
                },
                Ok(TopEntities::Artists(v)) => {
                    artists.extend_slot(report.timeframe, v);
                },
            }
        }
        n += 1;
        proof {
            assert forall|tf: Timeframe| #[trigger] tracks.slot(tf) == track_slot(all.take(n as int), tf)
                || failure is Some by {
                if failure is None {
                    assert(tracks.slot(tf) =~= track_slot(all.take(n as int), tf));
                }
            }
            assert forall|tf: Timeframe| #[trigger] artists.slot(tf) == artist_slot(all.take(n as int), tf)
                || failure is Some by {
                if failure is None {
                    assert(artists.slot(tf) =~= artist_slot(all.take(n as int), tf));
                }
            }
        }
    }
    assert(all.take(n as int) =~= all);
    match failure {
        Some(e) => Err(e),
        None => Ok(Snapshot { last_update_time: now, tracks, artists }),
    }
}

/// A fan-out round in which some request failed yields no snapshot.
pub proof fn lemma_any_failure_fails_fanout(reports: Seq<FanOutReport>, i: int)
    requires
        0 <= i < reports.len(),
        reports[i].result is Err,
    ensures
        first_error(reports) is Some,
    decreases reports.len(),
{
    if i < reports.len() - 1 {
        lemma_any_failure_fails_fanout(reports.drop_last(), i);
    }
}

} // verus!
