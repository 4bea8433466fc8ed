use vstd::prelude::*;

use crate::database::PlaylistRow;
use crate::mem_store::MemStore;
use crate::track::{QueuedTrack, QueuedTrackView, TrackQueryResult, TrackQueryResultView};

verus! {

/// The playback pointer of a playlist. `NothingPlayed` means just that;
/// `Index(i)` means position `i` of the queue projection is the one playback
/// stands at, with more possibly to follow; `Last(i)` is the terminal marker:
/// position `i` was the final track and was already reached.
#[derive(Clone, Copy, PartialEq, Eq, Structural, Debug)]
pub enum CurrentTrack {
    NothingPlayed,
    Index(usize),
    Last(usize),
}

/// A snapshot of the active playlist's playback pointer.
#[derive(Clone, Copy, PartialEq, Eq, Structural, Debug)]
pub struct Playlist {
    pub current_track: CurrentTrack,
}

/// How a stored playlist row reads back as a playback pointer.
pub open spec fn current_track_of(row: PlaylistRow) -> CurrentTrack {
    match row.current_track {
        Some(i) => if row.last_track {
            CurrentTrack::Last(i)
        } else {
            CurrentTrack::Index(i)
        },
        None => CurrentTrack::NothingPlayed,
    }
}

/// One guild's runtime wrapper: the store plus cached playback state.
/// `playing` is derived from whether an audio handle is attached, not from
/// persisted state; the shell that owns the transport reports attach and
/// detach through the dispatcher.
pub struct GuildStore {
    pub store: MemStore,
    pub playing: bool,
}

impl GuildStore {
    /// Well-formedness of the wrapped store.
    pub open spec fn inv(self) -> bool {
        self.store.inv()
    }

    /// The active queue projection.
    pub open spec fn queue_view(self) -> Seq<QueuedTrackView> {
        self.store.queue_view()
    }

    /// The active playlist's full insertion history: every track ever added
    /// to it, in insertion order, soft-deleted or not, each as it was added.
    pub open spec fn history_view(self) -> Seq<QueuedTrackView> {
        self.store.history_view()
    }

    /// The stored playback pointer.
    pub open spec fn pointer(self) -> CurrentTrack {
        current_track_of(self.store.playlist_row())
    }

    /// The queue position that would play next: the first position when
    /// nothing has played, the one after the pointer while more remain,
    /// nothing at the terminal marker or past the end.
    pub open spec fn next_pos(self) -> Option<int> {
        match self.pointer() {
            CurrentTrack::NothingPlayed => if self.queue_view().len() > 0 {
                Some(0int)
            } else {
                None
            },
            CurrentTrack::Index(i) => if i + 1 < self.queue_view().len() {
                Some(i + 1 as int)
            } else {
                None
            },
            CurrentTrack::Last(_) => None,
        }
    }

    /// Wraps a store; playback starts idle.
    pub fn new(store: MemStore) -> (s: GuildStore)
        ensures
            s.store == store,
            s.playing == false,
    {
        GuildStore { store, playing: false }
    }

    /// Whether an audio handle is currently attached.
    pub fn is_playing(&self) -> (r: bool)
        ensures
            r == self.playing,
    {
        self.playing
    }

    /// The current queue, recomputed from the store.
    pub fn queue(&self) -> (q: Vec<QueuedTrack>)
        requires
            self.inv(),
        ensures
            q.deep_view() == self.queue_view(),
    {
        self.store.queue()
    }

    /// Appends one track to the queue; the playback state is untouched.
    pub fn add_track_to_queue(&mut self, track: &QueuedTrack)
        requires
            old(self).inv(),
        ensures
            final(self).inv(),
            final(self).playing == old(self).playing,
            final(self).store.playlist_id == old(self).store.playlist_id,
            final(self).store.channel_id == old(self).store.channel_id,
            final(self).store.db.playlists@ == old(self).store.db.playlists@,
            final(self).pointer() == old(self).pointer(),
            final(self).queue_view() == old(self).queue_view().push(
                (QueuedTrackView {
                    title: track.title@,
                    url: track.url@,
                    duration: track.duration,
                    author_external_id: track.author_external_id,
                    author_username: final(self).store.db.author_by_ext(
                        track.author_external_id,
                    ).username@,
                    skip: false,
                }),
            ),
            !old(self).store.db.has_author(track.author_external_id)
                ==> final(self).store.db.author_by_ext(track.author_external_id).username
                == track.author_username,
            old(self).store.db.has_author(track.author_external_id)
                ==> final(self).store.db.author_by_ext(track.author_external_id)
                == old(self).store.db.author_by_ext(track.author_external_id),
            final(self).history_view() == old(self).history_view().push(
                final(self).queue_view().last(),
            ),
    {
        let ghost pre = *self;
        self.store.add_track_to_queue(track);
        proof {
            let ext = track.author_external_id;
            if pre.store.db.has_author(ext) {
                let j = choose|j: int|
                    0 <= j < pre.store.db.authors@.len() && (
                    #[trigger] pre.store.db.authors@[j]).external_user_id == ext;
                pre.store.db.lemma_author_by_ext_at(j);
                self.store.db.lemma_author_by_ext_at(j);
            }
        }
    }

    /// Soft-deletes the track at a projection position; out of range is a
    /// silent no-op.
    pub fn skip_track(&mut self, index: usize)
        requires
            old(self).inv(),
        ensures
            final(self).inv(),
            final(self).playing == old(self).playing,
            final(self).store.playlist_id == old(self).store.playlist_id,
            final(self).store.channel_id == old(self).store.channel_id,
            final(self).pointer() == old(self).pointer(),
            index < old(self).queue_view().len() ==> final(self).queue_view()
                == old(self).queue_view().remove(index as int),
            index >= old(self).queue_view().len() ==> *final(self) == *old(self),
            final(self).store.db.authors@ == old(self).store.db.authors@,
            forall|x: u64|
                old(self).store.db.has_author(x) ==> final(self).store.db.has_author(x)
                    && final(self).store.db.author_by_ext(x) == old(self).store.db.author_by_ext(
                    x,
                ),
            forall|x: u64| final(self).store.db.has_author(x) ==> old(self).store.db.has_author(x),
            final(self).history_view() == old(self).history_view(),
    {
        let ghost pre = *self;
        self.store.skip_track(index);
        proof {
            assert forall|x: u64| pre.store.db.has_author(x) implies self.store.db.has_author(x)
                && self.store.db.author_by_ext(x) == pre.store.db.author_by_ext(x) by {
                let j = choose|j: int|
                    0 <= j < pre.store.db.authors@.len() && (
                    #[trigger] pre.store.db.authors@[j]).external_user_id == x;
                pre.store.db.lemma_author_by_ext_at(j);
                self.store.db.lemma_author_by_ext_at(j);
            }
        }
    }

    /// Persists an edited copy of the track at a projection position. Only
    /// the skip mark is persisted this way; everything else shown is
    /// recomputed from the joined tables on read.
    pub fn update_track(&mut self, index: usize, track: &QueuedTrack)
        requires
            old(self).inv(),
        ensures
            final(self).inv(),
            final(self).playing == old(self).playing,
            final(self).store.playlist_id == old(self).store.playlist_id,
            final(self).store.channel_id == old(self).store.channel_id,
            final(self).pointer() == old(self).pointer(),
            track.skip && index < old(self).queue_view().len() ==> final(self).queue_view()
                == old(self).queue_view().remove(index as int),
            track.skip && index >= old(self).queue_view().len() ==> *final(self) == *old(self),
            !track.skip ==> *final(self) == *old(self),
            final(self).history_view() == old(self).history_view(),
    {
        self.store.update_track(index, track);
    }

    /// Cache lookup of resolved metadata by exact query string.
    pub fn find_track_query_result(&self, query: &String) -> (r: Option<TrackQueryResult>)
        requires
            self.inv(),
        ensures
            match r {
                Some(res) => self.store.db.has_memo(query@) && res@ == self.store.db.memo_result(
                    query@,
                ),
                None => !self.store.db.has_memo(query@),
            },
    {
        self.store.find_track_query_result(query)
    }

    /// Records, or overwrites, the memo from a query string to the resolved
    /// metadata of `track`.
    pub fn add_track_query_result(&mut self, query: &String, track: &QueuedTrack)
        requires
            old(self).inv(),
        ensures
            final(self).inv(),
            final(self).playing == old(self).playing,
            final(self).store.playlist_id == old(self).store.playlist_id,
            final(self).store.channel_id == old(self).store.channel_id,
            final(self).store.db.has_memo(query@),
            final(self).store.db.memo_result(query@) == (TrackQueryResultView {
                title: track.title@,
                url: track.url@,
                duration: track.duration,
            }),
            forall|q2: Seq<char>|
                q2 != query@ ==> (final(self).store.db.has_memo(q2) <==> old(self).store.db.has_memo(q2)),
            forall|q2: Seq<char>|
                q2 != query@ && old(self).store.db.has_memo(q2)
                    ==> final(self).store.db.memo_result(q2) == old(self).store.db.memo_result(q2),
            final(self).queue_view() == old(self).queue_view(),
            final(self).pointer() == old(self).pointer(),
    {
        self.store.add_track_query_result(query, track);
    }

    /// Up to `max_playlists` prior playlists' queues, most recent first,
    /// never including the active playlist.
    pub fn previous_queue(&self, max_playlists: u64) -> (r: Vec<Vec<QueuedTrack>>)
        requires
            self.inv(),
        ensures
            max_playlists >= self.store.prior_view().len() ==> r.deep_view().len()
                == self.store.prior_view().len(),
            max_playlists < self.store.prior_view().len() ==> r.deep_view().len()
                == max_playlists,
            forall|k: int|
                0 <= k < r.deep_view().len() ==> r.deep_view()[k] == self.store.db.playlist_queue(
                    self.store.prior_view()[k].id,
                ),
    {
        self.store.previous_queue(max_playlists)
    }

    /// A snapshot of the playback pointer.
    pub fn playlist(&self) -> (p: Playlist)
        requires
            self.inv(),
        ensures
            p == (Playlist { current_track: self.pointer() }),
    {
        self.store.playlist()
    }

    /// Advances the stored playback pointer.
    pub fn set_current_track(&mut self, current_track: CurrentTrack)
        requires
            old(self).inv(),
        ensures
            final(self).inv(),
            final(self).playing == old(self).playing,
            final(self).store.playlist_id == old(self).store.playlist_id,
            final(self).store.channel_id == old(self).store.channel_id,
            final(self).pointer() == current_track,
            final(self).store.playlist_row().current_track == (match current_track {
                CurrentTrack::Last(i) => Some(i),
                CurrentTrack::Index(i) => Some(i),
                CurrentTrack::NothingPlayed => None,
            }),
            final(self).store.playlist_row().last_track == (current_track
                matches CurrentTrack::Last(_)),
            final(self).queue_view() == old(self).queue_view(),
            final(self).history_view() == old(self).history_view(),
    {
        self.store.set_current_track(current_track);
    }

    /// The track that would play next, if any: the one after the current
    /// pointer, or the first when nothing has played yet.
    pub fn next_track_in_queue(&self) -> (r: Option<QueuedTrack>)
        requires
            self.inv(),
        ensures
            match r {
                Some(t) => self.next_pos() matches Some(p) && t.deep_view()
                    == self.queue_view()[p],
                None => self.next_pos() is None,
            },
    {
        match self.next_position() {
            Some(p) => {
                let mut q = self.store.queue();
                let t = q.remove(p);
                Some(t)
            },
            None => None,
        }
    }

    /// The queue position that would play next, if any.
    pub(crate) fn next_position(&self) -> (r: Option<usize>)
        requires
            self.inv(),
        ensures
            match r {
                Some(p) => self.next_pos() == Some(p as int) && p < self.queue_view().len(),
                None => self.next_pos() is None,
            },
    {
        let p = self.store.playlist();
        let q = self.store.queue();
        let len = q.len();
        proof {
            assert(q.deep_view().len() == q@.len());
        }
        match p.current_track {
            CurrentTrack::NothingPlayed => if len > 0 {
                Some(0)
            } else {
                None
            },
            CurrentTrack::Index(i) => if len > 0 && i < len - 1 {
                Some(i + 1)
            } else {
                None
            },
            CurrentTrack::Last(_) => None,
        }
    }
}

} // verus!
