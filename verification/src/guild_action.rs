use vstd::prelude::*;

use crate::database::{Database, PlaylistRow};
use crate::guild_store::{CurrentTrack, GuildStore};
use crate::mem_store::MemStore;
use crate::track::{QueuedTrack, QueuedTrackView};

verus! {

/// One user-visible message produced while applying an action. The shell
/// renders these as text for the notification sink; the core never formats
/// or parses command text.
pub enum Notification {
    NowPlaying(QueuedTrack),
    EndOfPlaylist,
    RemovedFromQueue(QueuedTrack),
    InvalidRange { from: u64, to: u64 },
}

impl Notification {
    /// This message announces that the given track now plays.
    pub open spec fn is_now_playing_of(self, t: QueuedTrackView) -> bool {
        self matches Notification::NowPlaying(x) && x.deep_view() == t
    }

    /// This message names the given track as removed from the queue.
    pub open spec fn is_removed_of(self, t: QueuedTrackView) -> bool {
        self matches Notification::RemovedFromQueue(x) && x.deep_view() == t
    }

    /// This message announces the end of the playlist.
    pub open spec fn is_end_of_playlist(self) -> bool {
        self matches Notification::EndOfPlaylist
    }

    /// This message rejects a malformed removal range.
    pub open spec fn is_invalid_range(self, from: u64, to: u64) -> bool {
        self matches Notification::InvalidRange { from: f, to: t } && f == from && t == to
    }
}

/// What applying one action asks of the shell: messages for the user, and at
/// most one track to attach to the audio transport.
pub struct Effects {
    pub notifications: Vec<Notification>,
    pub attach: Option<QueuedTrack>,
}

impl Effects {
    /// No messages and nothing to attach.
    pub fn none() -> (e: Effects)
        ensures
            e.notifications@.len() == 0,
            e.attach is None,
    {
        Effects { notifications: Vec::new(), attach: None }
    }
}

/// A removal request: queue positions `[from, to)`, or position `from` alone
/// when no upper bound is given.
pub struct Remove {
    pub from: u64,
    pub to: Option<u64>,
}

impl Remove {
    /// A request whose upper bound lies below its lower bound is rejected
    /// outright, with nothing applied.
    pub open spec fn rejected(self) -> bool {
        self.to matches Some(t) && self.from > t
    }

    /// One past the last requested position.
    pub open spec fn end_pos(self) -> int {
        match self.to {
            Some(t) => t as int,
            None => self.from + 1,
        }
    }
}

/// What a removal request leaves behind: on a rejected range, one rejection
/// message and no change; otherwise the still-present positions in
/// `[from, to)` leave the queue, each with one message naming it, and
/// positions out of range are passed over silently.
pub open spec fn remove_post(
    s0: GuildStore,
    s1: GuildStore,
    r: Remove,
    notifications: Seq<Notification>,
) -> bool {
    &&& s1.inv()
    &&& s1.playing == s0.playing
    &&& s1.pointer() == s0.pointer()
    &&& s1.store.playlist_id == s0.store.playlist_id
    &&& s1.store.channel_id == s0.store.channel_id
    &&& s1.history_view() == s0.history_view()
    &&& r.rejected() ==> {
        &&& s1 == s0
        &&& notifications.len() == 1
        &&& notifications[0].is_invalid_range(r.from, r.to.unwrap())
    }
    &&& !r.rejected() ==> {
        let q = s0.queue_view();
        let lo = if r.from as int <= q.len() {
            r.from as int
        } else {
            q.len() as int
        };
        let hi = if r.end_pos() <= q.len() {
            r.end_pos()
        } else {
            q.len() as int
        };
        &&& s1.queue_view() == q.take(lo) + q.skip(hi)
        &&& notifications.len() == hi - lo
        &&& forall|k: int|
            0 <= k < notifications.len() ==> (#[trigger] notifications[k]).is_removed_of(
                q[lo + k],
            )
    }
}

impl Remove {
    /// Applies the removal to a guild's store, returning the user messages
    /// in queue order.
    pub fn execute(&self, store: &mut GuildStore) -> (r: Vec<Notification>)
        requires
            old(store).inv(),
        ensures
            remove_post(*old(store), *final(store), *self, r@),
    {
        if let Some(to) = self.to {
            if self.from > to {
                let mut r: Vec<Notification> = Vec::new();
                r.push(Notification::InvalidRange { from: self.from, to });
                return r;
            }
        }
        let queue = store.queue();
        let qlen = queue.len();
        let lo: usize = if self.from <= qlen as u64 {
            self.from as usize
        } else {
            qlen
        };
        let hi: usize = match self.to {
            Some(t) => if t <= qlen as u64 {
                t as usize
            } else {
                qlen
            },
            None => if self.from < qlen as u64 {
                self.from as usize + 1
            } else {
                qlen
            },
        };
        let ghost snap = old(store).queue_view();
        let mut notifications: Vec<Notification> = Vec::new();
        let mut i: usize = lo;
        proof {
            assert(snap.take(lo as int) + snap.skip(lo as int) =~= snap);
        }
        while i < hi
            invariant
                store.inv(),
                store.playing == old(store).playing,
                store.pointer() == old(store).pointer(),
                store.store.playlist_id == old(store).store.playlist_id,
                store.store.channel_id == old(store).store.channel_id,
                lo <= i <= hi <= qlen,
                qlen == snap.len(),
                queue.deep_view() == snap,
                queue@.len() == qlen,
                store.queue_view() == snap.take(lo as int) + snap.skip(i as int),
                store.history_view() == old(store).history_view(),
                notifications@.len() == i - lo,
                forall|k: int|
                    0 <= k < notifications@.len() ==> (#[trigger] notifications@[k]).is_removed_of(
                        snap[lo + k],
                    ),
            decreases hi - i,
        {
            // the element at snapshot position i now stands at live
            // position lo: everything between was removed already
            let track = &queue[i];
            let mut edited = track.clone();
            edited.skip_track();
            let ghost live = store.queue_view();
            proof {
                assert(live.len() == lo + (qlen - i));
                assert(live[lo as int] == snap[i as int]);
            }
            store.update_track(lo, &edited);
            proof {
                assert(store.queue_view() =~= snap.take(lo as int) + snap.skip(i + 1));
            }
            notifications.push(Notification::RemovedFromQueue(track.clone()));
            proof {
                assert(track.deep_view() == snap[i as int]);
            }
            i = i + 1;
        }
        notifications
    }
}

/// The requests a caller may submit against a guild's queue, applied
/// strictly in submission order by that guild's serial worker.
pub enum Action {
    AddTrack(QueuedTrack),
    Skip(u64),
    Remove(Remove),
    PlayNextTrack,
    RemoveCurrentTrack,
}

/// What adding a track leaves behind: the queue grows by that track,
/// normalized to not-skipped and showing the author's stored display name;
/// playback state and pointer are untouched, and there is nothing to report.
pub open spec fn add_track_post(
    s0: GuildStore,
    s1: GuildStore,
    t: QueuedTrack,
    e: Effects,
) -> bool {
    &&& s1.inv()
    &&& s1.playing == s0.playing
    &&& s1.pointer() == s0.pointer()
    &&& s1.store.playlist_id == s0.store.playlist_id
    &&& s1.store.channel_id == s0.store.channel_id
    &&& s1.queue_view() == s0.queue_view().push(
        (QueuedTrackView {
            title: t.title@,
            url: t.url@,
            duration: t.duration,
            author_external_id: t.author_external_id,
            author_username: s1.store.db.author_by_ext(t.author_external_id).username@,
            skip: false,
        }),
    )
    &&& !s0.store.db.has_author(t.author_external_id) ==> s1.store.db.author_by_ext(
        t.author_external_id,
    ).username == t.author_username
    &&& s0.store.db.has_author(t.author_external_id) ==> s1.store.db.author_by_ext(
        t.author_external_id,
    ) == s0.store.db.author_by_ext(t.author_external_id)
    &&& s1.history_view() == s0.history_view().push(s1.queue_view().last())
    &&& e.notifications@.len() == 0
    &&& e.attach is None
}

/// What a skip leaves behind: the queue loses exactly the given projection
/// position, or nothing when the position is out of range; no message, no
/// attachment.
pub open spec fn skip_post(s0: GuildStore, s1: GuildStore, index: u64, e: Effects) -> bool {
    &&& s1.inv()
    &&& s1.playing == s0.playing
    &&& s1.pointer() == s0.pointer()
    &&& s1.store.playlist_id == s0.store.playlist_id
    &&& s1.store.channel_id == s0.store.channel_id
    &&& index < s0.queue_view().len() ==> s1.queue_view() == s0.queue_view().remove(index as int)
    &&& index >= s0.queue_view().len() ==> s1 == s0
    &&& s1.store.db.authors@ == s0.store.db.authors@
    &&& forall|x: u64|
        s0.store.db.has_author(x) ==> s1.store.db.has_author(x) && s1.store.db.author_by_ext(x)
            == s0.store.db.author_by_ext(x)
    &&& forall|x: u64| s1.store.db.has_author(x) ==> s0.store.db.has_author(x)
    &&& s1.history_view() == s0.history_view()
    &&& e.notifications@.len() == 0
    &&& e.attach is None
}

/// What starting playback leaves behind. While playing: a guarded no-op.
/// When idle with a next track: that track is attached, announced, and the
/// pointer advances to it. When idle with nothing left: the pointer parks at
/// the terminal marker if a track had played, and the end is announced.
pub open spec fn play_next_post(s0: GuildStore, s1: GuildStore, e: Effects) -> bool {
    &&& s1.inv()
    &&& s1.store.playlist_id == s0.store.playlist_id
    &&& s1.store.channel_id == s0.store.channel_id
    &&& s1.queue_view() == s0.queue_view()
    &&& s1.history_view() == s0.history_view()
    &&& s0.playing ==> s1 == s0 && e.notifications@.len() == 0 && e.attach is None
    &&& !s0.playing && s0.next_pos() is Some ==> {
        let p = s0.next_pos().unwrap();
        &&& s1.playing
        &&& s1.pointer() == CurrentTrack::Index(p as usize)
        &&& !s1.store.playlist_row().last_track
        &&& e.attach matches Some(t) && t.deep_view() == s0.queue_view()[p]
        &&& e.notifications@.len() == 1
        &&& e.notifications@[0].is_now_playing_of(s0.queue_view()[p])
    }
    &&& !s0.playing && s0.next_pos() is None ==> {
        &&& !s1.playing
        &&& s1.pointer() == (match s0.pointer() {
            CurrentTrack::Index(i) => CurrentTrack::Last(i),
            other => other,
        })
        &&& s0.pointer() matches CurrentTrack::Index(_) ==> s1.store.playlist_row().last_track
        &&& e.attach is None
        &&& e.notifications@.len() == 1
        &&& e.notifications@[0].is_end_of_playlist()
    }
}

/// What consuming the just-finished track leaves behind: at pointer
/// `Index(i)` that position is soft-deleted and the pointer steps back so
/// the following track keeps its turn; otherwise nothing changes. Playback
/// returns to idle either way, silently.
pub open spec fn remove_current_post(s0: GuildStore, s1: GuildStore, e: Effects) -> bool {
    &&& s1.inv()
    &&& s1.store.playlist_id == s0.store.playlist_id
    &&& s1.store.channel_id == s0.store.channel_id
    &&& s1.history_view() == s0.history_view()
    &&& !s1.playing
    &&& e.notifications@.len() == 0
    &&& e.attach is None
    &&& s0.pointer() matches CurrentTrack::Index(i) ==> {
        &&& i < s0.queue_view().len() ==> s1.queue_view() == s0.queue_view().remove(i as int)
        &&& i >= s0.queue_view().len() ==> s1.queue_view() == s0.queue_view()
        &&& s1.pointer() == (if i == 0 {
            CurrentTrack::NothingPlayed
        } else {
            CurrentTrack::Index((i - 1) as usize)
        })
        &&& !s1.store.playlist_row().last_track
    }
    &&& !(s0.pointer() matches CurrentTrack::Index(_)) ==> s1.queue_view() == s0.queue_view()
        && s1.pointer() == s0.pointer()
}

impl GuildStore {
    /// Starts the next track when idle; a guarded no-op while one plays.
    pub fn play_next(&mut self) -> (e: Effects)
        requires
            old(self).inv(),
        ensures
            play_next_post(*old(self), *final(self), e),
    {
        if self.is_playing() {
            return Effects::none();
        }
        match self.next_position() {
            Some(p) => {
                let mut q = self.store.queue();
                let t = q.remove(p);
                self.set_current_track(CurrentTrack::Index(p));
                self.playing = true;
                let announced = t.clone();
                let mut notifications: Vec<Notification> = Vec::new();
                notifications.push(Notification::NowPlaying(announced));
                Effects { notifications, attach: Some(t) }
            },
            None => {
                let p = self.store.playlist();
                if let CurrentTrack::Index(i) = p.current_track {
                    self.set_current_track(CurrentTrack::Last(i));
                }
                let mut notifications: Vec<Notification> = Vec::new();
                notifications.push(Notification::EndOfPlaylist);
                Effects { notifications, attach: None }
            },
        }
    }

    /// Consumes the just-finished track and returns to idle.
    pub fn remove_current(&mut self) -> (e: Effects)
        requires
            old(self).inv(),
        ensures
            remove_current_post(*old(self), *final(self), e),
    {
        let p = self.store.playlist();
        match p.current_track {
            CurrentTrack::Index(i) => {
                self.skip_track(i);
                if i == 0 {
                    self.set_current_track(CurrentTrack::NothingPlayed);
                } else {
                    self.set_current_track(CurrentTrack::Index(i - 1));
                }
            },
            _ => {},
        }
        self.playing = false;
        Effects::none()
    }
}

/// One registry entry: a guild and its store.
pub struct GuildEntry {
    pub guild_id: u64,
    pub store: GuildStore,
}

/// Process-wide registry of one store per active guild, created on demand.
/// The shell gives each guild one serial worker that owns calls into this
/// registry for that guild, so actions for a guild apply one at a time, in
/// submission order, while guilds stay fully parallel with each other.
pub struct GuildStoresActionHandler {
    pub stores: Vec<GuildEntry>,
}

/// A store as `get_or_create_store` makes it for a guild it has never seen:
/// well-formed, idle, nothing played, an empty queue, no memos, no history.
pub open spec fn fresh_store(s: GuildStore) -> bool {
    &&& s.inv()
    &&& !s.playing
    &&& s.queue_view() == Seq::<QueuedTrackView>::empty()
    &&& s.pointer() == CurrentTrack::NothingPlayed
    &&& forall|q: Seq<char>| !s.store.db.has_memo(q)
    &&& s.store.prior_view() == Seq::<PlaylistRow>::empty()
}

impl GuildStoresActionHandler {
    /// Well-formedness: one entry per guild, each store well-formed.
    pub open spec fn inv(self) -> bool {
        &&& forall|i: int, j: int|
            0 <= i < self.stores@.len() && 0 <= j < self.stores@.len() && i != j ==> (
            #[trigger] self.stores@[i]).guild_id != (#[trigger] self.stores@[j]).guild_id
        &&& forall|i: int| 0 <= i < self.stores@.len() ==> (#[trigger] self.stores@[i]).store.inv()
    }

    /// This guild has an entry.
    pub open spec fn has_guild(self, guild_id: u64) -> bool {
        exists|i: int|
            0 <= i < self.stores@.len() && (#[trigger] self.stores@[i]).guild_id == guild_id
    }

    /// The store of a guild; well-defined under `inv` because entries are
    /// unique per guild.
    pub open spec fn guild_store(self, guild_id: u64) -> GuildStore {
        self.stores@[choose|i: int|
            0 <= i < self.stores@.len() && (#[trigger] self.stores@[i]).guild_id
                == guild_id].store
    }

    /// Under `inv`, any entry holding the guild id is the entry that
    /// `guild_store` denotes.
    pub proof fn lemma_guild_store_at(self, i: int)
        requires
            self.inv(),
            0 <= i < self.stores@.len(),
        ensures
            self.guild_store(self.stores@[i].guild_id) == self.stores@[i].store,
            self.has_guild(self.stores@[i].guild_id),
    {
        let g = self.stores@[i].guild_id;
        assert(self.has_guild(g));
        let j = choose|j: int|
            0 <= j < self.stores@.len() && (#[trigger] self.stores@[j]).guild_id == g;
        assert(j == i);
    }

    /// Replacing the last entry's store, for the guild that entry belongs
    /// to, touches no other guild's entry.
    proof fn lemma_replace_last(pre: GuildStoresActionHandler, post: GuildStoresActionHandler, g: u64)
        requires
            pre.inv(),
            pre.stores@.len() > 0,
            pre.stores@.last().guild_id == g,
            post.stores@.len() == pre.stores@.len(),
            post.stores@ == pre.stores@.drop_last().push(post.stores@.last()),
            post.stores@.last().guild_id == g,
            post.stores@.last().store.inv(),
        ensures
            post.inv(),
            post.has_guild(g),
            post.guild_store(g) == post.stores@.last().store,
            forall|g2: u64| g2 != g ==> (post.has_guild(g2) <==> pre.has_guild(g2)),
            forall|g2: u64|
                g2 != g && pre.has_guild(g2) ==> post.guild_store(g2) == pre.guild_store(g2),
    {
        let n = pre.stores@.len() as int;
        assert(forall|k: int| 0 <= k < n - 1 ==> post.stores@[k] == pre.stores@[k]);
        assert(post.inv());
        post.lemma_guild_store_at(n - 1);
        assert forall|g2: u64| g2 != g implies (post.has_guild(g2) <==> pre.has_guild(g2)) by {
            if pre.has_guild(g2) {
                let k = choose|k: int|
                    0 <= k < pre.stores@.len() && (#[trigger] pre.stores@[k]).guild_id == g2;
                assert(k != n - 1);
                assert(post.stores@[k].guild_id == g2);
                assert(post.has_guild(g2));
            }
            if post.has_guild(g2) {
                let k = choose|k: int|
                    0 <= k < post.stores@.len() && (#[trigger] post.stores@[k]).guild_id == g2;
                assert(k != n - 1);
                assert(pre.stores@[k].guild_id == g2);
                assert(pre.has_guild(g2));
            }
        }
        assert forall|g2: u64| g2 != g && pre.has_guild(g2) implies post.guild_store(g2)
            == pre.guild_store(g2) by {
            let k = choose|k: int|
                0 <= k < pre.stores@.len() && (#[trigger] pre.stores@[k]).guild_id == g2;
            assert(k != n - 1);
            pre.lemma_guild_store_at(k);
            post.lemma_guild_store_at(k);
        }
    }

    /// Position of a guild's entry, if any.
    fn find_guild(&self, guild_id: u64) -> (r: Option<usize>)
        ensures
            match r {
                Some(i) => i < self.stores@.len() && self.stores@[i as int].guild_id == guild_id,
                None => !self.has_guild(guild_id),
            },
    {
        let n = self.stores.len();
        let mut i: usize = 0;
        while i < n
            invariant
                n == self.stores@.len(),
                i <= n,
                forall|j: int| 0 <= j < i ==> (#[trigger] self.stores@[j]).guild_id != guild_id,
            decreases n - i,
        {
            if self.stores[i].guild_id == guild_id {
                return Some(i);
            }
            i = i + 1;
        }
        None
    }

    /// An empty registry.
    pub fn new() -> (h: GuildStoresActionHandler)
        ensures
            h.inv(),
            h.stores@.len() == 0,
            forall|g: u64| !h.has_guild(g),
    {
        GuildStoresActionHandler { stores: Vec::new() }
    }

    /// Returns, creating it on first sight of the guild, the store for a
    /// guild, moved to the end of the registry so the caller can take it
    /// out and put it back. A brand-new store starts a fresh session.
    fn get_or_create_store(&mut self, guild_id: u64)
        requires
            old(self).inv(),
        ensures
            final(self).inv(),
            final(self).stores@.len() > 0,
            final(self).stores@.last().guild_id == guild_id,
            final(self).has_guild(guild_id),
            final(self).guild_store(guild_id) == final(self).stores@.last().store,
            old(self).has_guild(guild_id) ==> final(self).stores@.last().store == old(
                self,
            ).guild_store(guild_id),
            !old(self).has_guild(guild_id) ==> fresh_store(final(self).stores@.last().store),
            forall|g2: u64|
                g2 != guild_id ==> (final(self).has_guild(g2) <==> old(self).has_guild(g2)),
            forall|g2: u64|
                g2 != guild_id && old(self).has_guild(g2) ==> final(self).guild_store(g2) == old(
                    self,
                ).guild_store(g2),
    {
        let ghost pre = *self;
        let found = self.find_guild(guild_id);
        match found {
            Some(i) => {
                proof {
                    pre.lemma_guild_store_at(i as int);
                }
                let entry = self.stores.swap_remove(i);
                self.stores.push(entry);
                proof {
                    let post = *self;
                    let n = pre.stores@.len() as int;
                    // the reorder permutes entries: position i now holds what
                    // was last, the end holds the target, the rest stand still
                    assert(post.stores@.len() == n);
                    assert(post.stores@.last() == pre.stores@[i as int]);
                    assert(forall|k: int|
                        0 <= k < n - 1 && k != i ==> post.stores@[k] == pre.stores@[k]);
                    if i < n - 1 {
                        assert(post.stores@[i as int] == pre.stores@[n - 1]);
                    }
                    assert(post.inv());
                    post.lemma_guild_store_at(n - 1);
                    assert forall|g2: u64| g2 != guild_id implies (post.has_guild(g2)
                        <==> pre.has_guild(g2)) by {
                        if pre.has_guild(g2) {
                            let k = choose|k: int|
                                0 <= k < pre.stores@.len() && (#[trigger] pre.stores@[k]).guild_id
                                    == g2;
                            if k == n - 1 {
                                assert(post.stores@[i as int].guild_id == g2);
                            } else if k != i {
                                assert(post.stores@[k].guild_id == g2);
                            }
                            assert(post.has_guild(g2));
                        }
                        if post.has_guild(g2) {
                            let k = choose|k: int|
                                0 <= k < post.stores@.len() && (
                                #[trigger] post.stores@[k]).guild_id == g2;
                            if k == i && i < n - 1 {
                                assert(pre.stores@[n - 1].guild_id == g2);
                            } else if k == n - 1 {
                                assert(pre.stores@[i as int].guild_id == g2);
                            } else {
                                assert(pre.stores@[k].guild_id == g2);
                            }
                            assert(pre.has_guild(g2));
                        }
                    }
                    assert forall|g2: u64| g2 != guild_id && pre.has_guild(g2) implies
                        post.guild_store(g2) == pre.guild_store(g2) by {
                        let k = choose|k: int|
                            0 <= k < pre.stores@.len() && (#[trigger] pre.stores@[k]).guild_id
                                == g2;
                        pre.lemma_guild_store_at(k);
                        if k == n - 1 && i < n - 1 {
                            post.lemma_guild_store_at(i as int);
                        } else {
                            post.lemma_guild_store_at(k);
                        }
                    }
                }
            },
            None => {
                let db = Database::new();
                let store = MemStore::create(db, guild_id);
                let entry = GuildEntry { guild_id, store: GuildStore::new(store) };
                proof {
                    // the fresh store has one playlist, the active one, so
                    // its history listing is empty
                    let s = entry.store;
                    assert(s.store.db.playlists@.len() == 1);
                    assert(s.store.playlist_id == 0);
                    assert(s.store.db.playlists@[0].id == 0);
                    assert(s.store.db.playlists@.last() == s.store.db.playlists@[0]);
                    assert(s.store.db.playlists@.drop_last() =~= Seq::<PlaylistRow>::empty());
                    assert(crate::database::prior_playlists(
                        Seq::<PlaylistRow>::empty(),
                        guild_id,
                        s.store.playlist_id,
                    ) =~= Seq::<PlaylistRow>::empty());
                    assert(s.store.prior_view() =~= Seq::<PlaylistRow>::empty());
                    assert(fresh_store(s));
                }
                self.stores.push(entry);
                proof {
                    let post = *self;
                    let n = pre.stores@.len() as int;
                    assert(forall|k: int| 0 <= k < n ==> post.stores@[k] == pre.stores@[k]);
                    assert(post.inv());
                    post.lemma_guild_store_at(n);
                    assert forall|g2: u64| g2 != guild_id implies (post.has_guild(g2)
                        <==> pre.has_guild(g2)) by {
                        if pre.has_guild(g2) {
                            let k = choose|k: int|
                                0 <= k < pre.stores@.len() && (#[trigger] pre.stores@[k]).guild_id
                                    == g2;
                            assert(post.stores@[k].guild_id == g2);
                        }
                        if post.has_guild(g2) {
                            let k = choose|k: int|
                                0 <= k < post.stores@.len() && (
                                #[trigger] post.stores@[k]).guild_id == g2;
                            assert(k != n);
                            assert(pre.stores@[k].guild_id == g2);
                        }
                    }
                    assert forall|g2: u64| g2 != guild_id && pre.has_guild(g2) implies
                        post.guild_store(g2) == pre.guild_store(g2) by {
                        let k = choose|k: int|
                            0 <= k < pre.stores@.len() && (#[trigger] pre.stores@[k]).guild_id
                                == g2;
                        pre.lemma_guild_store_at(k);
                        post.lemma_guild_store_at(k);
                    }
                }
            },
        }
    }

    /// Applies one action to one guild's store: the single write path to
    /// guild state. The per-guild serial worker calls this once per
    /// submitted action, in submission order.
    pub fn handle_action(&mut self, guild_id: u64, action: Action) -> (e: Effects)
        requires
            old(self).inv(),
        ensures
            final(self).inv(),
            final(self).has_guild(guild_id),
            forall|g2: u64|
                g2 != guild_id ==> (final(self).has_guild(g2) <==> old(self).has_guild(g2)),
            forall|g2: u64|
                g2 != guild_id && old(self).has_guild(g2) ==> final(self).guild_store(g2) == old(
                    self,
                ).guild_store(g2),
            old(self).has_guild(guild_id) ==> action_post(
                action,
                old(self).guild_store(guild_id),
                final(self).guild_store(guild_id),
                e,
            ),
            !old(self).has_guild(guild_id) ==> (exists|s0: GuildStore|
                #[trigger] fresh_store(s0) && action_post(
                    action,
                    s0,
                    final(self).guild_store(guild_id),
                    e,
                )),
    {
        let ghost pre = *self;
        self.get_or_create_store(guild_id);
        let ghost mid = *self;
        let n = self.stores.len();
        let mut entry = self.stores.swap_remove(n - 1);
        let ghost s0 = entry.store;
        let e = match action {
            Action::AddTrack(t) => {
                entry.store.add_track_to_queue(&t);
                Effects::none()
            },
            Action::Skip(i) => {
                let q = entry.store.queue();
                if i < q.len() as u64 {
                    entry.store.skip_track(i as usize);
                }
                Effects::none()
            },
            Action::Remove(r) => {
                let notifications = r.execute(&mut entry.store);
                Effects { notifications, attach: None }
            },
            Action::PlayNextTrack => entry.store.play_next(),
            Action::RemoveCurrentTrack => entry.store.remove_current(),
        };
        self.stores.push(entry);
        proof {
            let post = *self;
            assert(post.stores@ =~= mid.stores@.drop_last().push(post.stores@.last()));
            Self::lemma_replace_last(mid, post, guild_id);
            if pre.has_guild(guild_id) {
                assert(s0 == pre.guild_store(guild_id));
            } else {
                assert(fresh_store(s0));
            }
        }
        e
    }

    /// Starts, or declines to double-start, playback for a guild: the
    /// `PlayNextTrack` action applied through the dispatcher.
    pub fn play_next_track(&mut self, guild_id: u64) -> (e: Effects)
        requires
            old(self).inv(),
        ensures
            final(self).inv(),
            final(self).has_guild(guild_id),
            forall|g2: u64|
                g2 != guild_id ==> (final(self).has_guild(g2) <==> old(self).has_guild(g2)),
            forall|g2: u64|
                g2 != guild_id && old(self).has_guild(g2) ==> final(self).guild_store(g2) == old(
                    self,
                ).guild_store(g2),
            old(self).has_guild(guild_id) ==> play_next_post(
                old(self).guild_store(guild_id),
                final(self).guild_store(guild_id),
                e,
            ),
            !old(self).has_guild(guild_id) ==> (exists|s0: GuildStore|
                #[trigger] fresh_store(s0) && play_next_post(
                    s0,
                    final(self).guild_store(guild_id),
                    e,
                )),
    {
        self.handle_action(guild_id, Action::PlayNextTrack)
    }

    /// Consumes the just-finished track for a guild: the
    /// `RemoveCurrentTrack` action applied through the dispatcher.
    pub fn remove_current_track(&mut self, guild_id: u64) -> (e: Effects)
        requires
            old(self).inv(),
        ensures
            final(self).inv(),
            final(self).has_guild(guild_id),
            forall|g2: u64|
                g2 != guild_id ==> (final(self).has_guild(g2) <==> old(self).has_guild(g2)),
            forall|g2: u64|
                g2 != guild_id && old(self).has_guild(g2) ==> final(self).guild_store(g2) == old(
                    self,
                ).guild_store(g2),
            old(self).has_guild(guild_id) ==> remove_current_post(
                old(self).guild_store(guild_id),
                final(self).guild_store(guild_id),
                e,
            ),
            !old(self).has_guild(guild_id) ==> (exists|s0: GuildStore|
                #[trigger] fresh_store(s0) && remove_current_post(
                    s0,
                    final(self).guild_store(guild_id),
                    e,
                )),
    {
        self.handle_action(guild_id, Action::RemoveCurrentTrack)
    }

    /// Reports that the audio transport failed to attach or dropped its
    /// handle: playback state reverts to idle, nothing else changes, and the
    /// next queued track is not attempted until a new `PlayNextTrack`
    /// arrives.
    pub fn transport_failed(&mut self, guild_id: u64)
        requires
            old(self).inv(),
        ensures
            final(self).inv(),
            final(self).has_guild(guild_id),
            forall|g2: u64|
                g2 != guild_id ==> (final(self).has_guild(g2) <==> old(self).has_guild(g2)),
            forall|g2: u64|
                g2 != guild_id && old(self).has_guild(g2) ==> final(self).guild_store(g2) == old(
                    self,
                ).guild_store(g2),
            !final(self).guild_store(guild_id).playing,
            old(self).has_guild(guild_id) ==> final(self).guild_store(guild_id) == (GuildStore {
                playing: false,
                ..old(self).guild_store(guild_id)
            }),
    {
        let ghost pre = *self;
        self.get_or_create_store(guild_id);
        let ghost mid = *self;
        let n = self.stores.len();
        let mut entry = self.stores.swap_remove(n - 1);
        entry.store.playing = false;
        self.stores.push(entry);
        proof {
            let post = *self;
            assert(post.stores@ =~= mid.stores@.drop_last().push(post.stores@.last()));
            Self::lemma_replace_last(mid, post, guild_id);
        }
    }
}

/// The per-action transition relation of the dispatcher, over one guild's
/// store: what `handle_action` guarantees for each kind of action.
pub open spec fn action_post(action: Action, s0: GuildStore, s1: GuildStore, e: Effects) -> bool {
    match action {
        Action::AddTrack(t) => add_track_post(s0, s1, t, e),
        Action::Skip(i) => skip_post(s0, s1, i, e),
        Action::Remove(r) => remove_post(s0, s1, r, e.notifications@) && e.attach is None,
        Action::PlayNextTrack => play_next_post(s0, s1, e),
        Action::RemoveCurrentTrack => remove_current_post(s0, s1, e),
    }
}

/// A skip at an in-range projection position excludes exactly the track at
/// that position and retains every other track in its original relative
/// order: earlier positions are untouched, later ones shift down by one.
pub proof fn lemma_skip_excludes_exactly(s0: GuildStore, s1: GuildStore, i: u64, e: Effects)
    requires
        skip_post(s0, s1, i, e),
        i < s0.queue_view().len(),
    ensures
        s1.queue_view().len() == s0.queue_view().len() - 1,
        forall|k: int| 0 <= k < i ==> s1.queue_view()[k] == s0.queue_view()[k],
        forall|k: int|
            i <= k < s1.queue_view().len() ==> s1.queue_view()[k] == s0.queue_view()[k + 1],
{
    assert(s1.queue_view() == s0.queue_view().remove(i as int));
}

/// Two callers' concurrent `AddTrack` and `Skip` for one guild are applied
/// one after the other, in one of the two submission orders, never
/// interleaved. This relates the two serializations: when the skip names a
/// position that exists before the addition, both orders agree on the final
/// queue — the skip is never lost and the track is added exactly once; when
/// the skip names exactly the position the addition creates, each order
/// gives its own well-defined queue, and the final state is one of the two.
pub proof fn lemma_concurrent_add_skip(
    s0: GuildStore,
    sa: GuildStore,
    sab: GuildStore,
    sb: GuildStore,
    sba: GuildStore,
    t: QueuedTrack,
    i: u64,
    ea: Effects,
    eab: Effects,
    eb: Effects,
    eba: Effects,
)
    requires
        add_track_post(s0, sa, t, ea),
        skip_post(sa, sab, i, eab),
        skip_post(s0, sb, i, eb),
        add_track_post(sb, sba, t, eba),
    ensures
        i != s0.queue_view().len() ==> sab.queue_view() == sba.queue_view(),
        i == s0.queue_view().len() ==> sab.queue_view() == s0.queue_view() && sba.queue_view()
            == sa.queue_view(),
{
    let ext = t.author_external_id;
    let q = s0.queue_view();
    // the display name the addition shows is the same in both orders: the
    // skip touches no author row
    assert(sa.queue_view().last() == sba.queue_view().last()) by {
        if s0.store.db.has_author(ext) {
            assert(sa.store.db.author_by_ext(ext) == s0.store.db.author_by_ext(ext));
            assert(sb.store.db.author_by_ext(ext) == s0.store.db.author_by_ext(ext));
            assert(sba.store.db.author_by_ext(ext) == sb.store.db.author_by_ext(ext));
        } else {
            assert(!sb.store.db.has_author(ext));
            assert(sa.store.db.author_by_ext(ext).username == t.author_username);
            assert(sba.store.db.author_by_ext(ext).username == t.author_username);
        }
    }
    let v = sa.queue_view().last();
    assert(sa.queue_view() == q.push(v));
    if i < q.len() {
        assert(sab.queue_view() == q.push(v).remove(i as int));
        assert(sb.queue_view() == q.remove(i as int));
        assert(sba.queue_view() == q.remove(i as int).push(v));
        assert(q.push(v).remove(i as int) =~= q.remove(i as int).push(v));
    } else if i == q.len() {
        assert(i < sa.queue_view().len());
        assert(sab.queue_view() == q.push(v).remove(i as int));
        assert(q.push(v).remove(i as int) =~= q);
        assert(sb == s0);
        assert(sba.queue_view() == q.push(v));
    } else {
        assert(i >= sa.queue_view().len());
        assert(sab == sa);
        assert(sb == s0);
        assert(sba.queue_view() == q.push(v));
    }
}

/// Raised by the audio engine when a track ends. It executes outside the
/// dispatcher's serialization context, so it never touches guild state
/// directly: it only names the actions to submit back through the guild's
/// own queue.
pub struct SongEndNotifier {
    pub guild_id: u64,
}

impl SongEndNotifier {
    /// A notifier for one guild's playback.
    pub fn new(guild_id: u64) -> (n: SongEndNotifier)
        ensures
            n.guild_id == guild_id,
    {
        SongEndNotifier { guild_id }
    }

    /// The actions to submit at end of track: consume the finished track,
    /// then start the next one, in that order.
    pub fn act(&self) -> (r: Vec<Action>)
        ensures
            r@.len() == 2,
            r@[0] is RemoveCurrentTrack,
            r@[1] is PlayNextTrack,
    {
        let mut r: Vec<Action> = Vec::new();
        r.push(Action::RemoveCurrentTrack);
        r.push(Action::PlayNextTrack);
        r
    }
}

} // verus!
