use vstd::prelude::*;

use crate::database::{active_rows, member_rows, prior_playlists, subsequence_of, track_active, Database, PlaylistRow, TrackQueryRow, TrackRow};
use crate::guild_store::{current_track_of, CurrentTrack, Playlist};
use crate::track::{QueuedTrack, QueuedTrackView, TrackQueryResult, TrackQueryResultView};

verus! {

/// Turns a playlist row into the denormalized queue it owns.
pub trait ToQueuedTracks {
    /// The queue this playlist owns, as a mathematical sequence.
    spec fn tracks_view(&self, db: Database) -> Seq<QueuedTrackView>;

    /// Recomputes the playlist's non-skipped tracks, in insertion order,
    /// joined with their author and resolved metadata.
    fn to_queued_tracks(&self, db: &Database) -> (q: Vec<QueuedTrack>)
        requires
            db.inv(),
        ensures
            q.deep_view() == self.tracks_view(*db),
    ;
}

impl ToQueuedTracks for PlaylistRow {
    open spec fn tracks_view(&self, db: Database) -> Seq<QueuedTrackView> {
        db.playlist_queue(self.id)
    }

    fn to_queued_tracks(&self, db: &Database) -> (q: Vec<QueuedTrack>) {
        queue_projection(db, self.id)
    }
}

/// Recomputes the queue projection of one playlist from the raw tables.
fn queue_projection(db: &Database, playlist_id: usize) -> (q: Vec<QueuedTrack>)
    requires
        db.inv(),
    ensures
        q.deep_view() == db.playlist_queue(playlist_id),
{
    let n = db.tracks.len();
    let mut q: Vec<QueuedTrack> = Vec::new();
    let mut i: usize = 0;
    proof {
        assert(db.tracks@.take(0) =~= Seq::<TrackRow>::empty());
        assert(active_rows(Seq::<TrackRow>::empty(), playlist_id) =~= Seq::<TrackRow>::empty());
        assert(q.deep_view() =~= db.queued_seq(active_rows(db.tracks@.take(0), playlist_id)));
    }
    while i < n
        invariant
            db.inv(),
            n == db.tracks@.len(),
            i <= n,
            q.deep_view() == db.queued_seq(active_rows(db.tracks@.take(i as int), playlist_id)),
        decreases n - i,
    {
        let row = &db.tracks[i];
        let ghost prefix = active_rows(db.tracks@.take(i as int), playlist_id);
        proof {
            assert(db.tracks@.take(i + 1) =~= db.tracks@.take(i as int).push(db.tracks@[i as int]));
            crate::database::lemma_active_rows_push(
                db.tracks@.take(i as int),
                db.tracks@[i as int],
                playlist_id,
            );
            assert(db.row_valid(db.tracks@[i as int]));
        }
        if row.playlist_id == playlist_id && !row.skip {
            let meta = &db.track_query_results[row.track_query_result_id];
            let author = &db.authors[row.author_id];
            let t = QueuedTrack {
                title: meta.title.clone(),
                url: meta.url.clone(),
                duration: meta.duration,
                author_external_id: author.external_user_id,
                author_username: author.username.clone(),
                skip: row.skip,
            };
            proof {
                assert(t.deep_view() == db.queued_of(db.tracks@[i as int]));
            }
            let ghost old_q = q@;
            let ghost old_dv = q.deep_view();
            q.push(t);
            proof {
                let rows = active_rows(db.tracks@.take(i + 1), playlist_id);
                assert(rows == prefix.push(db.tracks@[i as int]));
                assert(old_dv == db.queued_seq(prefix));
                assert(old_dv.len() == prefix.len());
                assert(old_q.len() == old_dv.len());
                assert(rows.len() == prefix.len() + 1);
                assert(q@.len() == old_q.len() + 1);
                assert forall|k: int| 0 <= k < q@.len() implies q.deep_view()[k]
                    == db.queued_seq(rows)[k] by {
                    if k < old_q.len() {
                        assert(q@[k] == old_q[k]);
                        assert(q.deep_view()[k] == old_dv[k]);
                        assert(old_dv[k] == db.queued_of(prefix[k]));
                        assert(rows[k] == prefix[k]);
                    } else {
                        assert(q@[k] == t);
                        assert(rows[k] == db.tracks@[i as int]);
                    }
                }
                assert(q.deep_view() =~= db.queued_seq(rows));
            }
        } else {
            proof {
                assert(q.deep_view() =~= db.queued_seq(
                    active_rows(db.tracks@.take(i + 1), playlist_id),
                ));
            }
        }
        i = i + 1;
    }
    proof {
        assert(db.tracks@.take(n as int) =~= db.tracks@);
    }
    q
}

/// One guild's store: the relational state plus which playlist is active for
/// which channel. The in-memory variant of the store capability; the same
/// operations, run against a relational backend, live behind the
/// asynchronous shell.
pub struct MemStore {
    pub db: Database,
    pub playlist_id: usize,
    pub channel_id: u64,
}

impl MemStore {
    /// Well-formedness: the database is well-formed and the active playlist
    /// exists and belongs to this store's channel.
    pub open spec fn inv(self) -> bool {
        &&& self.db.inv()
        &&& self.playlist_id < self.db.playlists@.len()
        &&& self.db.playlists@[self.playlist_id as int].channel_id == self.channel_id
    }

    /// The active playlist's queue: its non-skipped tracks in insertion
    /// order, denormalized.
    pub open spec fn queue_view(self) -> Seq<QueuedTrackView> {
        self.db.playlist_queue(self.playlist_id)
    }

    /// The active playlist's stored row.
    pub open spec fn playlist_row(self) -> PlaylistRow {
        self.db.playlists@[self.playlist_id as int]
    }

    /// The active playlist's full insertion history: every track ever added
    /// to it, in insertion order, soft-deleted or not, each as it was added.
    pub open spec fn history_view(self) -> Seq<QueuedTrackView> {
        self.db.playlist_history(self.playlist_id)
    }

    /// Whatever mix of additions and skips built this state, the queue is a
    /// subsequence of the insertion history: additions only append to the
    /// history and skips leave it unchanged, so skipping never reorders,
    /// duplicates, or drops a track that was not itself skipped.
    pub proof fn lemma_queue_within_history(self)
        ensures
            subsequence_of(self.queue_view(), self.history_view()),
    {
        self.db.lemma_queue_within_history(self.playlist_id);
    }

    /// Starts a brand-new playlist for a channel on the given database.
    pub fn create(db: Database, channel_id: u64) -> (s: MemStore)
        requires
            db.inv(),
        ensures
            s.inv(),
            s.channel_id == channel_id,
            s.playlist_id == db.playlists@.len(),
            s.db.playlists@ == db.playlists@.push(s.playlist_row()),
            s.playlist_row().channel_id == channel_id,
            s.playlist_row().current_track == Option::<usize>::None,
            s.playlist_row().last_track == false,
            s.db == (Database { playlists: s.db.playlists, clock: s.db.clock, ..db }),
            s.queue_view() =~= Seq::<QueuedTrackView>::empty(),
    {
        let mut db = db;
        let i = db.create_playlist(channel_id);
        let s = MemStore { db, playlist_id: i, channel_id };
        proof {
            assert forall|k: int| 0 <= k < s.db.tracks@.len() implies !track_active(
                #[trigger] s.db.tracks@[k],
                s.playlist_id,
            ) by {
                assert(s.db.row_valid(s.db.tracks@[k]));
            }
            crate::database::lemma_active_rows_none(s.db.tracks@, s.playlist_id);
        }
        s
    }

    /// Attaches to the most recently created playlist of a channel, so that
    /// playback resumes after a restart instead of silently starting a new
    /// empty session. Hands the database back unchanged, as the error value,
    /// when the channel has no playlist yet.
    pub fn create_with_current_playlist(db: Database, channel_id: u64) -> (r: Result<
        MemStore,
        Database,
    >)
        requires
            db.inv(),
        ensures
            match r {
                Ok(s) => {
                    &&& s.inv()
                    &&& s.db == db
                    &&& s.channel_id == channel_id
                    &&& s.playlist_id < db.playlists@.len()
                    &&& db.playlists@[s.playlist_id as int].channel_id == channel_id
                    &&& forall|j: int|
                        s.playlist_id < j < db.playlists@.len() ==> (
                        #[trigger] db.playlists@[j]).channel_id != channel_id
                },
                Err(d) => {
                    &&& d == db
                    &&& forall|j: int|
                        0 <= j < db.playlists@.len() ==> (#[trigger] db.playlists@[j]).channel_id
                            != channel_id
                },
            },
    {
        let mut i: usize = db.playlists.len();
        while i > 0
            invariant
                db.inv(),
                i <= db.playlists@.len(),
                forall|j: int|
                    i <= j < db.playlists@.len() ==> (#[trigger] db.playlists@[j]).channel_id
                        != channel_id,
            decreases i,
        {
            i = i - 1;
            if db.playlists[i].channel_id == channel_id {
                return Ok(MemStore { db, playlist_id: i, channel_id });
            }
        }
        Err(db)
    }

    /// The current queue. No side effects: authoritative state is always the
    /// backend, and the projection is recomputed on each read.
    pub fn queue(&self) -> (q: Vec<QueuedTrack>)
        requires
            self.inv(),
        ensures
            q.deep_view() == self.queue_view(),
    {
        queue_projection(&self.db, self.playlist_id)
    }

    /// A snapshot of the active playlist's playback pointer.
    pub fn playlist(&self) -> (p: Playlist)
        requires
            self.inv(),
        ensures
            p == (Playlist { current_track: current_track_of(self.playlist_row()) }),
    {
        let row = &self.db.playlists[self.playlist_id];
        let current_track = match row.current_track {
            Some(t) => if row.last_track {
                CurrentTrack::Last(t)
            } else {
                CurrentTrack::Index(t)
            },
            None => CurrentTrack::NothingPlayed,
        };
        Playlist { current_track }
    }

    /// Appends one enqueue event to the active playlist: resolves or creates
    /// the author and the resolved metadata, then appends a track row linking
    /// both. The queue grows by exactly this track, normalized: not skipped,
    /// and showing the author's stored display name.
    pub fn add_track_to_queue(&mut self, track: &QueuedTrack)
        requires
            old(self).inv(),
        ensures
            final(self).inv(),
            final(self).playlist_id == old(self).playlist_id,
            final(self).channel_id == old(self).channel_id,
            final(self).db.playlists@ == old(self).db.playlists@,
            final(self).db.track_queries@ == old(self).db.track_queries@,
            old(self).db.authors@.is_prefix_of(final(self).db.authors@),
            final(self).db.has_author(track.author_external_id),
            final(self).queue_view() == old(self).queue_view().push(
                (QueuedTrackView {
                    title: track.title@,
                    url: track.url@,
                    duration: track.duration,
                    author_external_id: track.author_external_id,
                    author_username: final(self).db.author_by_ext(
                        track.author_external_id,
                    ).username@,
                    skip: false,
                }),
            ),
            old(self).db.has_author(track.author_external_id) ==> final(self).db.authors@ == old(
                self,
            ).db.authors@,
            old(self).db.has_result(track.title@, track.url@, track.duration)
                ==> final(self).db.track_query_results@ == old(self).db.track_query_results@,
            !old(self).db.has_author(track.author_external_id) ==> final(self).db.author_by_ext(
                track.author_external_id,
            ).username == track.author_username,
            final(self).history_view() == old(self).history_view().push(
                final(self).queue_view().last(),
            ),
            forall|p: usize|
                p != old(self).playlist_id ==> final(self).db.playlist_queue(p) == old(
                    self,
                ).db.playlist_queue(p),
    {
        let ghost pre = *self;
        let ai = self.db.get_or_create_author(track.author_external_id, &track.author_username);
        let ghost s1 = *self;
        proof {
            assert(pre.db.authors@.is_prefix_of(s1.db.authors@)) by {
                assert(pre.db.authors@ =~= s1.db.authors@.subrange(
                    0,
                    pre.db.authors@.len() as int,
                ));
            }
            assert(pre.db.track_query_results@.is_prefix_of(s1.db.track_query_results@)) by {
                assert(pre.db.track_query_results@ =~= s1.db.track_query_results@.subrange(
                    0,
                    pre.db.track_query_results@.len() as int,
                ));
            }
            assert forall|p: usize| s1.db.playlist_queue(p) == pre.db.playlist_queue(p) by {
                pre.db.lemma_playlist_queue_stable(s1.db, p);
            }
        }
        let qi = self.db.get_or_create_track_query_result(
            &track.title,
            &track.url,
            track.duration,
        );
        let ghost s2 = *self;
        proof {
            assert(s1.db.authors@.is_prefix_of(s2.db.authors@)) by {
                assert(s1.db.authors@ =~= s2.db.authors@.subrange(0, s1.db.authors@.len() as int));
            }
            assert forall|p: usize| s2.db.playlist_queue(p) == s1.db.playlist_queue(p) by {
                s1.db.lemma_playlist_queue_stable(s2.db, p);
            }
        }
        proof {
            if pre.db.has_result(track.title@, track.url@, track.duration) {
                let j = choose|j: int|
                    0 <= j < pre.db.track_query_results@.len() && {
                        let row = #[trigger] pre.db.track_query_results@[j];
                        row.title@ == track.title@ && row.url@ == track.url@ && row.duration
                            == track.duration
                    };
                assert(s1.db.track_query_results@[j] == pre.db.track_query_results@[j]);
                assert(s1.db.has_result(track.title@, track.url@, track.duration));
            }
        }
        let id = self.db.tracks.len();
        let now = self.db.tick();
        let new_row = TrackRow {
            id,
            author_id: ai,
            track_query_result_id: qi,
            playlist_id: self.playlist_id,
            skip: false,
            created_at: now,
            updated_at: now,
        };
        self.db.tracks.push(new_row);
        proof {
            let fin = *self;
            // well-formedness is preserved: the new row's keys resolve and
            // every id still equals its position
            assert forall|k: int| 0 <= k < fin.db.tracks@.len() implies (
            #[trigger] fin.db.tracks@[k]).id == k && fin.db.row_valid(fin.db.tracks@[k]) by {
                if k < s2.db.tracks@.len() {
                    assert(s2.db.tracks@[k].id == k);
                    assert(s2.db.row_valid(s2.db.tracks@[k]));
                }
            }
            assert(fin.db.inv());
            assert(fin.inv());
            fin.db.lemma_author_by_ext_at(ai as int);
            // the new projection is the old one plus the joined new row
            crate::database::lemma_active_rows_push(
                s2.db.tracks@,
                new_row,
                pre.playlist_id,
            );
            let rows2 = active_rows(s2.db.tracks@, pre.playlist_id);
            assert(active_rows(fin.db.tracks@, pre.playlist_id) == rows2.push(new_row));
            s2.db.lemma_queued_seq_same_aux(fin.db, rows2);
            assert(fin.queue_view() =~= s2.queue_view().push(fin.db.queued_of(new_row)));
            assert(fin.db.queued_of(new_row) == (QueuedTrackView {
                title: track.title@,
                url: track.url@,
                duration: track.duration,
                author_external_id: track.author_external_id,
                author_username: fin.db.author_by_ext(track.author_external_id).username@,
                skip: false,
            }));
            // other playlists are untouched: the new row is not theirs
            assert forall|p: usize| p != pre.playlist_id implies fin.db.playlist_queue(p)
                == s2.db.playlist_queue(p) by {
                crate::database::lemma_active_rows_push(s2.db.tracks@, new_row, p);
                s2.db.lemma_queued_seq_same_aux(fin.db, active_rows(s2.db.tracks@, p));
            }
            assert(pre.db.authors@.is_prefix_of(fin.db.authors@));
            // the insertion history grows by exactly the track that joined
            // the queue
            pre.db.lemma_playlist_history_stable(s1.db, pre.playlist_id);
            s1.db.lemma_playlist_history_stable(s2.db, pre.playlist_id);
            crate::database::lemma_member_rows_push(s2.db.tracks@, new_row, pre.playlist_id);
            let mrows2 = member_rows(s2.db.tracks@, pre.playlist_id);
            assert(member_rows(fin.db.tracks@, pre.playlist_id) == mrows2.push(new_row));
            s2.db.lemma_added_seq_same_aux(fin.db, mrows2);
            assert(fin.history_view() =~= fin.db.added_seq(mrows2).push(fin.db.added_of(new_row)));
            assert(fin.db.added_of(new_row) == fin.db.queued_of(new_row));
            assert(fin.history_view() == pre.history_view().push(fin.queue_view().last()));
        }
    }

    /// Position, among the raw rows, of the track that stands at position
    /// `index` of the active queue projection.
    fn find_nth_active(&self, index: usize) -> (r: Option<usize>)
        requires
            self.inv(),
        ensures
            match r {
                Some(j) => {
                    &&& j < self.db.tracks@.len()
                    &&& track_active(self.db.tracks@[j as int], self.playlist_id)
                    &&& active_rows(self.db.tracks@.take(j as int), self.playlist_id).len()
                        == index
                    &&& index < self.queue_view().len()
                },
                None => index >= self.queue_view().len(),
            },
    {
        let n = self.db.tracks.len();
        let mut i: usize = 0;
        let mut count: usize = 0;
        proof {
            assert(self.db.tracks@.take(0) =~= Seq::<TrackRow>::empty());
            assert(active_rows(Seq::<TrackRow>::empty(), self.playlist_id) =~= Seq::<
                TrackRow,
            >::empty());
        }
        while i < n
            invariant
                self.inv(),
                n == self.db.tracks@.len(),
                i <= n,
                count == active_rows(self.db.tracks@.take(i as int), self.playlist_id).len(),
                count <= index,
            decreases n - i,
        {
            let row = &self.db.tracks[i];
            proof {
                assert(self.db.tracks@.take(i + 1) =~= self.db.tracks@.take(i as int).push(
                    self.db.tracks@[i as int],
                ));
                crate::database::lemma_active_rows_push(
                    self.db.tracks@.take(i as int),
                    self.db.tracks@[i as int],
                    self.playlist_id,
                );
            }
            if row.playlist_id == self.playlist_id && !row.skip {
                if count == index {
                    proof {
                        crate::database::lemma_active_rows_at(
                            self.db.tracks@,
                            i as int,
                            self.playlist_id,
                        );
                    }
                    return Some(i);
                }
                count = count + 1;
            }
            i = i + 1;
        }
        proof {
            assert(self.db.tracks@.take(n as int) =~= self.db.tracks@);
        }
        None
    }

    /// Soft-deletes the track at position `index` of the current non-skipped
    /// projection: the row is marked skipped and stamped, never removed, and
    /// later positions shift down by one in the recomputed projection. A
    /// position out of range is a no-op, not an error.
    pub fn skip_track(&mut self, index: usize)
        requires
            old(self).inv(),
        ensures
            final(self).inv(),
            final(self).playlist_id == old(self).playlist_id,
            final(self).channel_id == old(self).channel_id,
            final(self).db == (Database {
                tracks: final(self).db.tracks,
                clock: final(self).db.clock,
                ..old(self).db
            }),
            index < old(self).queue_view().len() ==> {
                &&& final(self).queue_view() == old(self).queue_view().remove(index as int)
                &&& final(self).db.tracks@.len() == old(self).db.tracks@.len()
                &&& exists|j: int|
                    0 <= j < old(self).db.tracks@.len() && track_active(
                        old(self).db.tracks@[j],
                        old(self).playlist_id,
                    ) && final(self).db.tracks@ == old(self).db.tracks@.update(
                        j,
                        (TrackRow {
                            skip: true,
                            updated_at: final(self).db.clock,
                            ..old(self).db.tracks@[j]
                        }),
                    )
            },
            index >= old(self).queue_view().len() ==> *final(self) == *old(self),
            final(self).history_view() == old(self).history_view(),
            forall|p: usize|
                p != old(self).playlist_id ==> final(self).db.playlist_queue(p) == old(
                    self,
                ).db.playlist_queue(p),
    {
        match self.find_nth_active(index) {
            None => {},
            Some(j) => {
                let ghost pre = *self;
                let now = self.db.tick();
                let row = &self.db.tracks[j];
                let new_row = TrackRow {
                    id: row.id,
                    author_id: row.author_id,
                    track_query_result_id: row.track_query_result_id,
                    playlist_id: row.playlist_id,
                    skip: true,
                    created_at: row.created_at,
                    updated_at: now,
                };
                self.db.tracks[j] = new_row;
                proof {
                    let fin = *self;
                    assert(fin.db.tracks@ == pre.db.tracks@.update(j as int, new_row));
                    assert forall|k: int| 0 <= k < fin.db.tracks@.len() implies (
                    #[trigger] fin.db.tracks@[k]).id == k && fin.db.row_valid(
                        fin.db.tracks@[k],
                    ) by {
                        assert(pre.db.tracks@[k].id == k);
                        assert(pre.db.row_valid(pre.db.tracks@[k]));
                    }
                    assert(fin.db.inv());
                    crate::database::lemma_active_rows_update(
                        pre.db.tracks@,
                        j as int,
                        new_row,
                        pre.playlist_id,
                    );
                    let rows = active_rows(pre.db.tracks@, pre.playlist_id);
                    assert(active_rows(fin.db.tracks@, pre.playlist_id) == rows.remove(
                        index as int,
                    ));
                    pre.db.lemma_queued_seq_same_aux(fin.db, rows.remove(index as int));
                    // removing one row of the projection removes one element
                    // of the joined queue, at the same position
                    assert(fin.queue_view() =~= pre.queue_view().remove(index as int));
                    assert(new_row == (TrackRow {
                        skip: true,
                        updated_at: fin.db.clock,
                        ..pre.db.tracks@[j as int]
                    }));
                    assert forall|p: usize| p != pre.playlist_id implies fin.db.playlist_queue(p)
                        == pre.db.playlist_queue(p) by {
                        crate::database::lemma_active_rows_update_inactive(
                            pre.db.tracks@,
                            j as int,
                            new_row,
                            p,
                        );
                        pre.db.lemma_queued_seq_same_aux(fin.db, active_rows(pre.db.tracks@, p));
                    }
                    // the insertion history does not see the soft delete
                    assert(new_row == (TrackRow {
                        skip: new_row.skip,
                        updated_at: new_row.updated_at,
                        ..pre.db.tracks@[j as int]
                    }));
                    pre.db.lemma_history_ignores_soft_delete(
                        pre.db.tracks@,
                        j as int,
                        new_row,
                        pre.playlist_id,
                    );
                    pre.db.lemma_added_seq_same_aux(
                        fin.db,
                        member_rows(fin.db.tracks@, pre.playlist_id),
                    );
                    assert(fin.history_view() == pre.history_view());
                }
            },
        }
    }

    /// Writes an edited copy of the track at projection position `index`
    /// back to the store. Of a queued copy only the skip mark is ever edited;
    /// a copy marked skipped soft-deletes the row, any other copy changes
    /// nothing, since every other shown field is recomputed from the joined
    /// tables on read.
    pub fn update_track(&mut self, index: usize, track: &QueuedTrack)
        requires
            old(self).inv(),
        ensures
            final(self).inv(),
            final(self).playlist_id == old(self).playlist_id,
            final(self).channel_id == old(self).channel_id,
            final(self).db == (Database {
                tracks: final(self).db.tracks,
                clock: final(self).db.clock,
                ..old(self).db
            }),
            track.skip && index < old(self).queue_view().len() ==> final(self).queue_view() == old(
                self,
            ).queue_view().remove(index as int),
            track.skip && index >= old(self).queue_view().len() ==> *final(self) == *old(self),
            !track.skip ==> *final(self) == *old(self),
            final(self).history_view() == old(self).history_view(),
            forall|p: usize|
                p != old(self).playlist_id ==> final(self).db.playlist_queue(p) == old(
                    self,
                ).db.playlist_queue(p),
    {
        if track.skip {
            self.skip_track(index);
        }
    }

    /// Cache lookup by exact query string: the resolved metadata previously
    /// memoized for it, or nothing for an unseen query.
    pub fn find_track_query_result(&self, query: &String) -> (r: Option<TrackQueryResult>)
        requires
            self.inv(),
        ensures
            match r {
                Some(res) => self.db.has_memo(query@) && res@ == self.db.memo_result(query@),
                None => !self.db.has_memo(query@),
            },
    {
        match self.db.find_track_query(query) {
            None => None,
            Some(j) => {
                proof {
                    self.db.lemma_memo_row_at(j as int);
                }
                let row = &self.db.track_queries[j];
                Some(self.db.track_query_results[row.track_query_result_id].to_result())
            },
        }
    }

    /// Records, or overwrites, the memo from a query string to the resolved
    /// metadata of `track`, creating the metadata row on a miss. Last write
    /// wins: at most one memo row maps a given query string at any time.
    pub fn add_track_query_result(&mut self, query: &String, track: &QueuedTrack)
        requires
            old(self).inv(),
        ensures
            final(self).inv(),
            final(self).playlist_id == old(self).playlist_id,
            final(self).channel_id == old(self).channel_id,
            final(self).db == (Database {
                track_query_results: final(self).db.track_query_results,
                track_queries: final(self).db.track_queries,
                clock: final(self).db.clock,
                ..old(self).db
            }),
            final(self).db.has_memo(query@),
            final(self).db.memo_result(query@) == (TrackQueryResultView {
                title: track.title@,
                url: track.url@,
                duration: track.duration,
            }),
            old(self).db.has_result(track.title@, track.url@, track.duration)
                ==> final(self).db.track_query_results@ == old(self).db.track_query_results@,
            old(self).db.has_memo(query@) ==> final(self).db.track_queries@.len() == old(
                self,
            ).db.track_queries@.len() && ({
                let m0 = old(self).db.memo_row(query@);
                let m1 = final(self).db.memo_row(query@);
                m1.id == m0.id && m1.query@ == m0.query@ && m1.created_at == m0.created_at
                    && m1.updated_at == final(self).db.clock
            }),
            !old(self).db.has_memo(query@) ==> ({
                let m1 = final(self).db.memo_row(query@);
                final(self).db.track_queries@ == old(self).db.track_queries@.push(m1) && m1.id
                    == old(self).db.track_queries@.len() && m1.query@ == query@ && m1.created_at
                    == final(self).db.clock && m1.updated_at == final(self).db.clock
            }),
            forall|q2: Seq<char>|
                q2 != query@ ==> (final(self).db.has_memo(q2) <==> old(self).db.has_memo(q2)),
            forall|q2: Seq<char>|
                q2 != query@ && old(self).db.has_memo(q2) ==> final(self).db.memo_result(q2)
                    == old(self).db.memo_result(q2),
            forall|p: usize| final(self).db.playlist_queue(p) == old(self).db.playlist_queue(p),
    {
        let ghost pre = *self;
        let qi = self.db.get_or_create_track_query_result(
            &track.title,
            &track.url,
            track.duration,
        );
        let ghost s1 = *self;
        proof {
            assert(pre.db.track_query_results@.is_prefix_of(s1.db.track_query_results@));
            assert(pre.db.authors@.is_prefix_of(s1.db.authors@)) by {
                assert(pre.db.authors@ =~= s1.db.authors@.subrange(
                    0,
                    pre.db.authors@.len() as int,
                ));
            }
            assert forall|p: usize| s1.db.playlist_queue(p) == pre.db.playlist_queue(p) by {
                pre.db.lemma_playlist_queue_stable(s1.db, p);
            }
        }
        let now = self.db.tick();
        let found = self.db.find_track_query(query);
        match found {
            Some(j) => {
                let row = &self.db.track_queries[j];
                let new_row = TrackQueryRow {
                    id: row.id,
                    query: row.query.clone(),
                    track_query_result_id: qi,
                    created_at: row.created_at,
                    updated_at: now,
                };
                self.db.track_queries[j] = new_row;
                proof {
                    let fin = *self;
                    assert(fin.db.track_queries@ == s1.db.track_queries@.update(j as int, new_row));
                    assert(new_row.query@ == query@);
                    assert forall|k: int, l: int|
                        0 <= k < fin.db.track_queries@.len() && 0 <= l
                            < fin.db.track_queries@.len() && k != l implies (
                    #[trigger] fin.db.track_queries@[k]).query@ != (
                    #[trigger] fin.db.track_queries@[l]).query@ by {
                        assert(s1.db.track_queries@[k].query@ != s1.db.track_queries@[l].query@);
                        assert(s1.db.track_queries@[j as int].query@ == query@);
                    }
                    assert(fin.db.inv());
                    fin.db.lemma_memo_row_at(j as int);
                    assert(fin.db.memo_row(query@) == new_row);
                    pre.db.lemma_memo_row_at(j as int);
                    assert(pre.db.memo_row(query@) == pre.db.track_queries@[j as int]);
                    assert forall|q2: Seq<char>| q2 != query@ implies (fin.db.has_memo(q2)
                        <==> s1.db.has_memo(q2)) && (s1.db.has_memo(q2)
                        ==> fin.db.memo_result(q2) == s1.db.memo_result(q2)) by {
                        if s1.db.has_memo(q2) {
                            let k = choose|k: int|
                                0 <= k < s1.db.track_queries@.len() && (
                                #[trigger] s1.db.track_queries@[k]).query@ == q2;
                            assert(k != j);
                            assert(fin.db.track_queries@[k] == s1.db.track_queries@[k]);
                            fin.db.lemma_memo_row_at(k);
                            s1.db.lemma_memo_row_at(k);
                        }
                        if fin.db.has_memo(q2) {
                            let k = choose|k: int|
                                0 <= k < fin.db.track_queries@.len() && (
                                #[trigger] fin.db.track_queries@[k]).query@ == q2;
                            assert(k != j);
                            assert(s1.db.track_queries@[k] == fin.db.track_queries@[k]);
                            assert(s1.db.has_memo(q2));
                        }
                    }
                    s1.db.lemma_playlist_queue_same_tables(fin.db);
                }
            },
            None => {
                let id = self.db.track_queries.len();
                let new_row = TrackQueryRow {
                    id,
                    query: query.clone(),
                    track_query_result_id: qi,
                    created_at: now,
                    updated_at: now,
                };
                self.db.track_queries.push(new_row);
                proof {
                    let fin = *self;
                    assert(fin.db.track_queries@ == s1.db.track_queries@.push(new_row));
                    assert(new_row.query@ == query@);
                    assert forall|k: int, l: int|
                        0 <= k < fin.db.track_queries@.len() && 0 <= l
                            < fin.db.track_queries@.len() && k != l implies (
                    #[trigger] fin.db.track_queries@[k]).query@ != (
                    #[trigger] fin.db.track_queries@[l]).query@ by {
                        if k < s1.db.track_queries@.len() && l < s1.db.track_queries@.len() {
                            assert(s1.db.track_queries@[k].query@
                                != s1.db.track_queries@[l].query@);
                        }
                    }
                    assert forall|k: int| 0 <= k < fin.db.track_queries@.len() implies (
                    #[trigger] fin.db.track_queries@[k]).id == k && fin.db.track_queries@[k].track_query_result_id
                        < fin.db.track_query_results@.len() by {
                        if k < s1.db.track_queries@.len() {
                            assert(s1.db.track_queries@[k].id == k);
                            assert(s1.db.track_queries@[k].track_query_result_id
                                < s1.db.track_query_results@.len());
                        }
                    }
                    assert(fin.db.inv());
                    fin.db.lemma_memo_row_at(id as int);
                    assert(fin.db.memo_row(query@) == new_row);
                    assert forall|q2: Seq<char>| q2 != query@ implies (fin.db.has_memo(q2)
                        <==> s1.db.has_memo(q2)) && (s1.db.has_memo(q2)
                        ==> fin.db.memo_result(q2) == s1.db.memo_result(q2)) by {
                        if s1.db.has_memo(q2) {
                            let k = choose|k: int|
                                0 <= k < s1.db.track_queries@.len() && (
                                #[trigger] s1.db.track_queries@[k]).query@ == q2;
                            assert(fin.db.track_queries@[k] == s1.db.track_queries@[k]);
                            fin.db.lemma_memo_row_at(k);
                            s1.db.lemma_memo_row_at(k);
                        }
                        if fin.db.has_memo(q2) {
                            let k = choose|k: int|
                                0 <= k < fin.db.track_queries@.len() && (
                                #[trigger] fin.db.track_queries@[k]).query@ == q2;
                            assert(k != id);
                            assert(s1.db.track_queries@[k] == fin.db.track_queries@[k]);
                            assert(s1.db.has_memo(q2));
                        }
                    }
                    s1.db.lemma_playlist_queue_same_tables(fin.db);
                }
            },
        }
    }

    /// The playlists this channel listened to before the active one, most
    /// recent first.
    pub open spec fn prior_view(self) -> Seq<PlaylistRow> {
        prior_playlists(self.db.playlists@, self.channel_id, self.playlist_id)
    }

    /// The listing behind `previous_queue` never includes the active
    /// playlist, lists only this channel's playlists, and comes strictly
    /// most recently created first: under well-formedness, creation order is
    /// id order, and ids here descend.
    pub proof fn lemma_prior_view_law(self)
        requires
            self.inv(),
        ensures
            forall|k: int|
                0 <= k < self.prior_view().len() ==> (#[trigger] self.prior_view()[k]).id
                    != self.playlist_id && self.prior_view()[k].channel_id == self.channel_id,
            forall|k1: int, k2: int|
                0 <= k1 < k2 < self.prior_view().len() ==> (#[trigger] self.prior_view()[k1]).id
                    > (#[trigger] self.prior_view()[k2]).id,
    {
        crate::database::lemma_prior_playlists_elems(
            self.db.playlists@,
            self.channel_id,
            self.playlist_id,
        );
        crate::database::lemma_prior_playlists_sorted(
            self.db.playlists@,
            self.channel_id,
            self.playlist_id,
        );
    }

    /// Up to `max_playlists` prior playlists' queues, most recent first,
    /// never including the active playlist.
    pub fn previous_queue(&self, max_playlists: u64) -> (r: Vec<Vec<QueuedTrack>>)
        requires
            self.inv(),
        ensures
            max_playlists >= self.prior_view().len() ==> r.deep_view().len()
                == self.prior_view().len(),
            max_playlists < self.prior_view().len() ==> r.deep_view().len() == max_playlists,
            forall|k: int|
                0 <= k < r.deep_view().len() ==> r.deep_view()[k] == self.db.playlist_queue(
                    self.prior_view()[k].id,
                ),
    {
        let n = self.db.playlists.len();
        let mut picked: Vec<usize> = Vec::new();
        let mut i: usize = n;
        proof {
            assert(self.db.playlists@.skip(n as int) =~= Seq::<PlaylistRow>::empty());
        }
        while i > 0
            invariant
                self.inv(),
                n == self.db.playlists@.len(),
                i <= n,
                picked@.len() <= max_playlists,
                ({
                    let p = prior_playlists(
                        self.db.playlists@.skip(i as int),
                        self.channel_id,
                        self.playlist_id,
                    );
                    &&& (max_playlists >= p.len() ==> picked@.len() == p.len())
                    &&& (max_playlists < p.len() ==> picked@.len() == max_playlists)
                    &&& forall|k: int|
                        0 <= k < picked@.len() ==> p[k].id == #[trigger] picked@[k]
                            && picked@[k] < n
                }),
            decreases i,
        {
            i = i - 1;
            let row = &self.db.playlists[i];
            proof {
                assert(self.db.playlists@.skip(i as int) =~= seq![self.db.playlists@[i as int]]
                    + self.db.playlists@.skip(i + 1));
                crate::database::lemma_prior_playlists_prepend(
                    self.db.playlists@[i as int],
                    self.db.playlists@.skip(i + 1),
                    self.channel_id,
                    self.playlist_id,
                );
            }
            if row.channel_id == self.channel_id && row.id != self.playlist_id
                && (picked.len() as u64) < max_playlists {
                picked.push(i);
            }
        }
        let ghost prior = self.prior_view();
        proof {
            assert(self.db.playlists@.skip(0) =~= self.db.playlists@);
        }
        let mut r: Vec<Vec<QueuedTrack>> = Vec::new();
        let m = picked.len();
        let mut k: usize = 0;
        while k < m
            invariant
                self.inv(),
                m == picked@.len(),
                k <= m,
                r.deep_view().len() == k,
                forall|j: int| 0 <= j < m ==> #[trigger] picked@[j] < self.db.playlists@.len(),
                forall|j: int| 0 <= j < m ==> prior[j].id == #[trigger] picked@[j],
                forall|j: int|
                    0 <= j < k ==> r.deep_view()[j] == self.db.playlist_queue(prior[j].id),
            decreases m - k,
        {
            let q = queue_projection(&self.db, picked[k]);
            let ghost old_r = r.deep_view();
            r.push(q);
            proof {
                assert(r@.len() == old_r.len() + 1);
                assert forall|j: int| 0 <= j < r.deep_view().len() implies r.deep_view()[j]
                    == self.db.playlist_queue(prior[j].id) by {
                    if j < old_r.len() {
                        assert(r.deep_view()[j] == old_r[j]);
                    } else {
                        assert(r.deep_view()[j] == q.deep_view());
                    }
                }
            }
            k = k + 1;
        }
        r
    }

    /// Advances the stored playback pointer of the active playlist and
    /// stamps its update time. Nothing else changes; in particular the queue
    /// reads back the same.
    pub fn set_current_track(&mut self, current_track: CurrentTrack)
        requires
            old(self).inv(),
        ensures
            final(self).inv(),
            final(self).playlist_id == old(self).playlist_id,
            final(self).channel_id == old(self).channel_id,
            final(self).db == (Database {
                playlists: final(self).db.playlists,
                clock: final(self).db.clock,
                ..old(self).db
            }),
            final(self).db.playlists@ == old(self).db.playlists@.update(
                old(self).playlist_id as int,
                final(self).playlist_row(),
            ),
            final(self).playlist_row() == (PlaylistRow {
                current_track: match current_track {
                    CurrentTrack::Last(i) => Some(i),
                    CurrentTrack::Index(i) => Some(i),
                    CurrentTrack::NothingPlayed => None,
                },
                last_track: current_track matches CurrentTrack::Last(_),
                updated_at: final(self).db.clock,
                ..old(self).playlist_row()
            }),
            current_track_of(final(self).playlist_row()) == current_track,
            final(self).queue_view() == old(self).queue_view(),
            final(self).history_view() == old(self).history_view(),
            forall|p: usize| final(self).db.playlist_queue(p) == old(self).db.playlist_queue(p),
    {
        let ghost pre = *self;
        let now = self.db.tick();
        let pid = self.playlist_id;
        let row = &self.db.playlists[pid];
        let (stored, is_last) = match current_track {
            CurrentTrack::Last(index) => (Some(index), true),
            CurrentTrack::Index(index) => (Some(index), false),
            CurrentTrack::NothingPlayed => (None, false),
        };
        let new_row = PlaylistRow {
            id: row.id,
            channel_id: row.channel_id,
            current_track: stored,
            last_track: is_last,
            created_at: row.created_at,
            updated_at: now,
        };
        self.db.playlists[pid] = new_row;
        proof {
            let fin = *self;
            assert(fin.db.playlists@ == pre.db.playlists@.update(pid as int, new_row));
            assert forall|k: int| 0 <= k < fin.db.playlists@.len() implies (
            #[trigger] fin.db.playlists@[k]).id == k by {
                assert(pre.db.playlists@[k].id == k);
            }
            assert forall|k: int| 0 <= k < fin.db.tracks@.len() implies fin.db.row_valid(
                #[trigger] fin.db.tracks@[k],
            ) by {
                assert(pre.db.row_valid(pre.db.tracks@[k]));
            }
            assert(fin.db.inv());
            pre.db.lemma_playlist_queue_same_tables(fin.db);
            pre.db.lemma_added_seq_same_aux(
                fin.db,
                member_rows(fin.db.tracks@, pre.playlist_id),
            );
        }
    }
}

} // verus!
