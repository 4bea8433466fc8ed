use vstd::prelude::*;

use crate::track::{QueuedTrackView, TrackQueryResult, TrackQueryResultView};

verus! {

/// One author row: a user who has requested tracks, keyed by the chat
/// platform's user id. Created lazily on first track addition, never deleted.
pub struct AuthorRow {
    pub id: usize,
    pub external_user_id: u64,
    pub username: String,
    pub created_at: u64,
    pub updated_at: u64,
}

/// Resolved metadata for one piece of media, shared by every track and query
/// memo that refers to it.
pub struct TrackQueryResultRow {
    pub id: usize,
    pub title: String,
    pub url: String,
    pub duration: u64,
    pub created_at: u64,
    pub updated_at: u64,
}

/// A memo row: maps one free-text search query to its resolved result.
pub struct TrackQueryRow {
    pub id: usize,
    pub query: String,
    pub track_query_result_id: usize,
    pub created_at: u64,
    pub updated_at: u64,
}

/// One continuous listening session for a channel. `current_track == None`
/// means nothing has played yet; `last_track == true` marks the stored index
/// as a terminal marker: the final track was already reached.
pub struct PlaylistRow {
    pub id: usize,
    pub channel_id: u64,
    pub current_track: Option<usize>,
    pub last_track: bool,
    pub created_at: u64,
    pub updated_at: u64,
}

/// One enqueue event. `skip == true` is a soft delete: the row is excluded
/// from the active queue projection but retained for history. Ordering within
/// a playlist is insertion order; rows are never reordered in place.
pub struct TrackRow {
    pub id: usize,
    pub author_id: usize,
    pub track_query_result_id: usize,
    pub playlist_id: usize,
    pub skip: bool,
    pub created_at: u64,
    pub updated_at: u64,
}

impl TrackQueryResultRow {
    /// The value handed to callers of the metadata cache: the row without
    /// its bookkeeping columns.
    pub fn to_result(&self) -> (r: TrackQueryResult)
        ensures
            r@ == (TrackQueryResultView {
                title: self.title@,
                url: self.url@,
                duration: self.duration,
            }),
    {
        TrackQueryResult {
            title: self.title.clone(),
            url: self.url.clone(),
            duration: self.duration,
        }
    }
}

/// The relational state behind every store: five tables plus a logical clock
/// used to stamp row creation and update times. Within each table a row's id
/// equals its position, so insertion order and id order coincide.
pub struct Database {
    pub authors: Vec<AuthorRow>,
    pub track_query_results: Vec<TrackQueryResultRow>,
    pub track_queries: Vec<TrackQueryRow>,
    pub playlists: Vec<PlaylistRow>,
    pub tracks: Vec<TrackRow>,
    pub clock: u64,
}

/// Whether a track row belongs to the active projection of `playlist_id`:
/// it is part of that playlist and not soft-deleted.
pub open spec fn track_active(r: TrackRow, playlist_id: usize) -> bool {
    r.playlist_id == playlist_id && !r.skip
}

/// The rows of `rows` that belong to the active projection of `playlist_id`,
/// in their original order.
pub open spec fn active_rows(rows: Seq<TrackRow>, playlist_id: usize) -> Seq<TrackRow>
    decreases rows.len(),
{
    if rows.len() == 0 {
        Seq::empty()
    } else {
        let rest = active_rows(rows.drop_last(), playlist_id);
        if track_active(rows.last(), playlist_id) {
            rest.push(rows.last())
        } else {
            rest
        }
    }
}

/// Appending one row extends the projection by that row exactly when the row
/// is active.
pub proof fn lemma_active_rows_push(rows: Seq<TrackRow>, r: TrackRow, playlist_id: usize)
    ensures
        active_rows(rows.push(r), playlist_id) == if track_active(r, playlist_id) {
            active_rows(rows, playlist_id).push(r)
        } else {
            active_rows(rows, playlist_id)
        },
{
    assert(rows.push(r).drop_last() =~= rows);
    assert(rows.push(r).last() == r);
}

/// The projection distributes over concatenation.
pub proof fn lemma_active_rows_add(a: Seq<TrackRow>, b: Seq<TrackRow>, playlist_id: usize)
    ensures
        active_rows(a + b, playlist_id) == active_rows(a, playlist_id) + active_rows(
            b,
            playlist_id,
        ),
    decreases b.len(),
{
    if b.len() == 0 {
        assert(a + b =~= a);
        assert(active_rows(a, playlist_id) + active_rows(b, playlist_id) =~= active_rows(
            a,
            playlist_id,
        ));
    } else {
        lemma_active_rows_add(a, b.drop_last(), playlist_id);
        assert((a + b).drop_last() =~= a + b.drop_last());
        assert((a + b).last() == b.last());
        if track_active(b.last(), playlist_id) {
            assert(active_rows(a, playlist_id) + active_rows(b.drop_last(), playlist_id).push(
                b.last(),
            ) =~= (active_rows(a, playlist_id) + active_rows(b.drop_last(), playlist_id)).push(
                b.last(),
            ));
        }
    }
}

/// Every row of the projection is a row of the input.
pub proof fn lemma_active_rows_sub(rows: Seq<TrackRow>, playlist_id: usize)
    ensures
        forall|i: int|
            0 <= i < active_rows(rows, playlist_id).len() ==> rows.contains(
                #[trigger] active_rows(rows, playlist_id)[i],
            ),
    decreases rows.len(),
{
    if rows.len() != 0 {
        lemma_active_rows_sub(rows.drop_last(), playlist_id);
        assert forall|i: int| 0 <= i < active_rows(rows, playlist_id).len() implies rows.contains(
            #[trigger] active_rows(rows, playlist_id)[i],
        ) by {
            let ar = active_rows(rows, playlist_id);
            let rest = active_rows(rows.drop_last(), playlist_id);
            if i < rest.len() {
                assert(rest[i] == ar[i]);
                let j = choose|j: int| 0 <= j < rows.drop_last().len() && rows.drop_last()[j]
                    == rest[i];
                assert(rows[j] == ar[i]);
            } else {
                assert(ar[i] == rows.last());
                assert(rows[rows.len() - 1] == rows.last());
            }
        }
    }
}

/// A projection over rows that are all inactive is empty.
pub proof fn lemma_active_rows_none(rows: Seq<TrackRow>, playlist_id: usize)
    requires
        forall|i: int| 0 <= i < rows.len() ==> !track_active(#[trigger] rows[i], playlist_id),
    ensures
        active_rows(rows, playlist_id) =~= Seq::<TrackRow>::empty(),
    decreases rows.len(),
{
    if rows.len() != 0 {
        assert(forall|i: int|
            0 <= i < rows.drop_last().len() ==> !track_active(
                #[trigger] rows.drop_last()[i],
                playlist_id,
            ));
        lemma_active_rows_none(rows.drop_last(), playlist_id);
        assert(rows.last() == rows[rows.len() - 1]);
    }
}

/// Every row of the projection is active: of this playlist and not
/// soft-deleted.
pub proof fn lemma_active_rows_pred(rows: Seq<TrackRow>, playlist_id: usize)
    ensures
        forall|i: int|
            0 <= i < active_rows(rows, playlist_id).len() ==> track_active(
                #[trigger] active_rows(rows, playlist_id)[i],
                playlist_id,
            ),
    decreases rows.len(),
{
    if rows.len() != 0 {
        lemma_active_rows_pred(rows.drop_last(), playlist_id);
        let ar = active_rows(rows, playlist_id);
        let rest = active_rows(rows.drop_last(), playlist_id);
        assert forall|i: int| 0 <= i < ar.len() implies track_active(
            #[trigger] ar[i],
            playlist_id,
        ) by {
            if i < rest.len() {
                assert(ar[i] == rest[i]);
            } else {
                assert(ar[i] == rows.last());
            }
        }
    }
}

/// The rows of `rows` that belong to `playlist_id`, soft-deleted or not, in
/// their original order: the playlist's full insertion history.
pub open spec fn member_rows(rows: Seq<TrackRow>, playlist_id: usize) -> Seq<TrackRow>
    decreases rows.len(),
{
    if rows.len() == 0 {
        Seq::empty()
    } else {
        let rest = member_rows(rows.drop_last(), playlist_id);
        if rows.last().playlist_id == playlist_id {
            rest.push(rows.last())
        } else {
            rest
        }
    }
}

/// Appending one row extends the history by that row exactly when the row
/// belongs to the playlist.
pub proof fn lemma_member_rows_push(rows: Seq<TrackRow>, r: TrackRow, playlist_id: usize)
    ensures
        member_rows(rows.push(r), playlist_id) == if r.playlist_id == playlist_id {
            member_rows(rows, playlist_id).push(r)
        } else {
            member_rows(rows, playlist_id)
        },
{
    assert(rows.push(r).drop_last() =~= rows);
    assert(rows.push(r).last() == r);
}

/// Every row of the history is a row of the input.
pub proof fn lemma_member_rows_sub(rows: Seq<TrackRow>, playlist_id: usize)
    ensures
        forall|i: int|
            0 <= i < member_rows(rows, playlist_id).len() ==> rows.contains(
                #[trigger] member_rows(rows, playlist_id)[i],
            ),
    decreases rows.len(),
{
    if rows.len() != 0 {
        lemma_member_rows_sub(rows.drop_last(), playlist_id);
        assert forall|i: int| 0 <= i < member_rows(rows, playlist_id).len() implies rows.contains(
            #[trigger] member_rows(rows, playlist_id)[i],
        ) by {
            let mr = member_rows(rows, playlist_id);
            let rest = member_rows(rows.drop_last(), playlist_id);
            if i < rest.len() {
                assert(rest[i] == mr[i]);
                let j = choose|j: int| 0 <= j < rows.drop_last().len() && rows.drop_last()[j]
                    == rest[i];
                assert(rows[j] == mr[i]);
            } else {
                assert(mr[i] == rows.last());
                assert(rows[rows.len() - 1] == rows.last());
            }
        }
    }
}

/// `f` carries each position of `sub` to an equal element of `sup`, strictly
/// left to right.
pub open spec fn maps_subsequence<A>(f: Seq<int>, sub: Seq<A>, sup: Seq<A>) -> bool {
    &&& f.len() == sub.len()
    &&& forall|i: int| 0 <= i < f.len() ==> 0 <= #[trigger] f[i] < sup.len() && sub[i] == sup[f[i]]
    &&& forall|i: int, j: int| 0 <= i < j < f.len() ==> f[i] < f[j]
}

/// `sub` appears inside `sup`, in order and without duplication of
/// positions.
pub open spec fn subsequence_of<A>(sub: Seq<A>, sup: Seq<A>) -> bool {
    exists|f: Seq<int>| maps_subsequence(f, sub, sup)
}

/// The queue projection is a subsequence of the playlist's full insertion
/// history: filtering out the soft-deleted rows keeps the remaining rows in
/// their original relative order.
pub proof fn lemma_active_sub_member(rows: Seq<TrackRow>, playlist_id: usize)
    ensures
        subsequence_of(active_rows(rows, playlist_id), member_rows(rows, playlist_id)),
    decreases rows.len(),
{
    if rows.len() == 0 {
        let f = Seq::<int>::empty();
        assert(maps_subsequence(f, active_rows(rows, playlist_id), member_rows(rows, playlist_id)));
    } else {
        lemma_active_sub_member(rows.drop_last(), playlist_id);
        let a = active_rows(rows.drop_last(), playlist_id);
        let m = member_rows(rows.drop_last(), playlist_id);
        let f0 = choose|f: Seq<int>| maps_subsequence(f, a, m);
        let r = rows.last();
        if track_active(r, playlist_id) {
            let f1 = f0.push(m.len() as int);
            assert(maps_subsequence(f1, active_rows(rows, playlist_id), member_rows(rows, playlist_id))) by {
                assert(active_rows(rows, playlist_id) == a.push(r));
                assert(member_rows(rows, playlist_id) == m.push(r));
                assert(forall|i: int| 0 <= i < f0.len() ==> a.push(r)[i] == a[i]);
                assert(forall|i: int|
                    0 <= i < f0.len() ==> m.push(r)[#[trigger] f0[i]] == m[f0[i]]);
                assert(a.push(r)[f0.len() as int] == r);
                assert(m.push(r)[m.len() as int] == r);
            }
        } else if r.playlist_id == playlist_id {
            assert(maps_subsequence(f0, active_rows(rows, playlist_id), member_rows(rows, playlist_id))) by {
                assert(active_rows(rows, playlist_id) == a);
                assert(member_rows(rows, playlist_id) == m.push(r));
                assert(forall|i: int|
                    0 <= i < f0.len() ==> m.push(r)[#[trigger] f0[i]] == m[f0[i]]);
            }
        } else {
            assert(maps_subsequence(f0, active_rows(rows, playlist_id), member_rows(rows, playlist_id)));
        }
    }
}

/// An active row at position `j` stands in the projection at the position
/// given by the count of active rows before it.
pub proof fn lemma_active_rows_at(rows: Seq<TrackRow>, j: int, playlist_id: usize)
    requires
        0 <= j < rows.len(),
        track_active(rows[j], playlist_id),
    ensures
        active_rows(rows.take(j), playlist_id).len() < active_rows(rows, playlist_id).len(),
        active_rows(rows, playlist_id)[active_rows(rows.take(j), playlist_id).len() as int]
            == rows[j],
{
    let a = rows.take(j);
    let b = rows.skip(j + 1);
    let mid = seq![rows[j]];
    assert(rows =~= a + mid + b);
    assert(mid.drop_last() =~= Seq::<TrackRow>::empty());
    assert(active_rows(Seq::<TrackRow>::empty(), playlist_id) =~= Seq::<TrackRow>::empty());
    assert(active_rows(mid, playlist_id) =~= mid);
    lemma_active_rows_add(a + mid, b, playlist_id);
    lemma_active_rows_add(a, mid, playlist_id);
    let ra = active_rows(a, playlist_id);
    let rb = active_rows(b, playlist_id);
    assert(active_rows(rows, playlist_id) == ra + mid + rb);
    assert((ra + mid + rb)[ra.len() as int] == rows[j]);
}

/// Updating a row that is outside this playlist's projection, to a row still
/// outside it, leaves the projection unchanged.
pub proof fn lemma_active_rows_update_inactive(
    rows: Seq<TrackRow>,
    j: int,
    x: TrackRow,
    playlist_id: usize,
)
    requires
        0 <= j < rows.len(),
        !track_active(rows[j], playlist_id),
        !track_active(x, playlist_id),
    ensures
        active_rows(rows.update(j, x), playlist_id) == active_rows(rows, playlist_id),
{
    let a = rows.take(j);
    let b = rows.skip(j + 1);
    let mid = seq![rows[j]];
    let midx = seq![x];
    assert(rows =~= a + mid + b);
    assert(rows.update(j, x) =~= a + midx + b);
    assert(mid.drop_last() =~= Seq::<TrackRow>::empty());
    assert(midx.drop_last() =~= Seq::<TrackRow>::empty());
    assert(active_rows(Seq::<TrackRow>::empty(), playlist_id) =~= Seq::<TrackRow>::empty());
    assert(active_rows(mid, playlist_id) =~= Seq::<TrackRow>::empty());
    assert(active_rows(midx, playlist_id) =~= Seq::<TrackRow>::empty());
    lemma_active_rows_add(a + mid, b, playlist_id);
    lemma_active_rows_add(a, mid, playlist_id);
    lemma_active_rows_add(a + midx, b, playlist_id);
    lemma_active_rows_add(a, midx, playlist_id);
    assert(active_rows(rows, playlist_id) =~= active_rows(a, playlist_id) + active_rows(
        b,
        playlist_id,
    ));
    assert(active_rows(rows.update(j, x), playlist_id) =~= active_rows(a, playlist_id)
        + active_rows(b, playlist_id));
}

/// Soft-deleting the row that stands at position `k` of the projection
/// removes exactly position `k`, and shifts nothing else.
pub proof fn lemma_active_rows_update(rows: Seq<TrackRow>, j: int, x: TrackRow, playlist_id: usize)
    requires
        0 <= j < rows.len(),
        track_active(rows[j], playlist_id),
        !track_active(x, playlist_id),
    ensures
        active_rows(rows.take(j), playlist_id).len() < active_rows(rows, playlist_id).len(),
        active_rows(rows, playlist_id)[active_rows(rows.take(j), playlist_id).len() as int]
            == rows[j],
        active_rows(rows.update(j, x), playlist_id) == active_rows(rows, playlist_id).remove(
            active_rows(rows.take(j), playlist_id).len() as int,
        ),
{
    let a = rows.take(j);
    let b = rows.skip(j + 1);
    let mid = seq![rows[j]];
    let midx = seq![x];
    assert(rows =~= a + mid + b);
    assert(rows.update(j, x) =~= a + midx + b);
    assert(mid.drop_last() =~= Seq::<TrackRow>::empty());
    assert(midx.drop_last() =~= Seq::<TrackRow>::empty());
    assert(active_rows(Seq::<TrackRow>::empty(), playlist_id) =~= Seq::<TrackRow>::empty());
    assert(active_rows(mid, playlist_id) =~= mid);
    assert(active_rows(midx, playlist_id) =~= Seq::<TrackRow>::empty());
    lemma_active_rows_add(a + mid, b, playlist_id);
    lemma_active_rows_add(a, mid, playlist_id);
    lemma_active_rows_add(a + midx, b, playlist_id);
    lemma_active_rows_add(a, midx, playlist_id);
    let ra = active_rows(a, playlist_id);
    let rb = active_rows(b, playlist_id);
    assert(active_rows(rows, playlist_id) == ra + mid + rb);
    assert(active_rows(rows.update(j, x), playlist_id) == ra + rb);
    assert((ra + mid + rb).remove(ra.len() as int) =~= ra + rb);
    assert((ra + mid + rb)[ra.len() as int] == rows[j]);
}

/// The playlists of `channel_id` other than the active one, most recently
/// created first.
pub open spec fn prior_playlists(
    pls: Seq<PlaylistRow>,
    channel_id: u64,
    active_id: usize,
) -> Seq<PlaylistRow>
    decreases pls.len(),
{
    if pls.len() == 0 {
        Seq::empty()
    } else {
        let rest = prior_playlists(pls.drop_last(), channel_id, active_id);
        if pls.last().channel_id == channel_id && pls.last().id != active_id {
            seq![pls.last()] + rest
        } else {
            rest
        }
    }
}

/// Prepending an older playlist appends it at the end of the
/// most-recent-first listing.
pub proof fn lemma_prior_playlists_prepend(
    x: PlaylistRow,
    pls: Seq<PlaylistRow>,
    channel_id: u64,
    active_id: usize,
)
    ensures
        prior_playlists(seq![x] + pls, channel_id, active_id) == if x.channel_id == channel_id
            && x.id != active_id {
            prior_playlists(pls, channel_id, active_id) + seq![x]
        } else {
            prior_playlists(pls, channel_id, active_id)
        },
    decreases pls.len(),
{
    let t = seq![x] + pls;
    if pls.len() == 0 {
        assert(t.drop_last() =~= Seq::<PlaylistRow>::empty());
        assert(t.last() == x);
        assert(prior_playlists(Seq::<PlaylistRow>::empty(), channel_id, active_id) =~= Seq::<
            PlaylistRow,
        >::empty());
        if x.channel_id == channel_id && x.id != active_id {
            assert(prior_playlists(t, channel_id, active_id) =~= prior_playlists(
                pls,
                channel_id,
                active_id,
            ) + seq![x]);
        }
    } else {
        assert(t.drop_last() =~= seq![x] + pls.drop_last());
        assert(t.last() == pls.last());
        lemma_prior_playlists_prepend(x, pls.drop_last(), channel_id, active_id);
        if pls.last().channel_id == channel_id && pls.last().id != active_id {
            if x.channel_id == channel_id && x.id != active_id {
                assert(seq![pls.last()] + (prior_playlists(pls.drop_last(), channel_id, active_id)
                    + seq![x]) =~= (seq![pls.last()] + prior_playlists(
                    pls.drop_last(),
                    channel_id,
                    active_id,
                )) + seq![x]);
            }
        }
    }
}

/// Every listed playlist belongs to the channel and is not the active one.
pub proof fn lemma_prior_playlists_elems(pls: Seq<PlaylistRow>, channel_id: u64, active_id: usize)
    ensures
        forall|i: int|
            0 <= i < prior_playlists(pls, channel_id, active_id).len() ==> {
                let p = #[trigger] prior_playlists(pls, channel_id, active_id)[i];
                p.channel_id == channel_id && p.id != active_id
            },
    decreases pls.len(),
{
    if pls.len() != 0 {
        lemma_prior_playlists_elems(pls.drop_last(), channel_id, active_id);
    }
}

/// When ids equal positions, so that id order is creation order, the listing
/// comes strictly most recently created first.
pub proof fn lemma_prior_playlists_sorted(pls: Seq<PlaylistRow>, channel_id: u64, active_id: usize)
    requires
        forall|i: int| 0 <= i < pls.len() ==> (#[trigger] pls[i]).id == i,
    ensures
        forall|k: int|
            0 <= k < prior_playlists(pls, channel_id, active_id).len() ==> (
            #[trigger] prior_playlists(pls, channel_id, active_id)[k]).id < pls.len(),
        forall|k1: int, k2: int|
            0 <= k1 < k2 < prior_playlists(pls, channel_id, active_id).len()
                ==> (#[trigger] prior_playlists(pls, channel_id, active_id)[k1]).id > (
            #[trigger] prior_playlists(pls, channel_id, active_id)[k2]).id,
    decreases pls.len(),
{
    if pls.len() != 0 {
        let rest = prior_playlists(pls.drop_last(), channel_id, active_id);
        lemma_prior_playlists_sorted(pls.drop_last(), channel_id, active_id);
        if pls.last().channel_id == channel_id && pls.last().id != active_id {
            let whole = prior_playlists(pls, channel_id, active_id);
            assert(whole == seq![pls.last()] + rest);
            assert(pls.last().id == pls.len() - 1);
            assert(forall|k: int| 0 <= k < rest.len() ==> whole[k + 1] == rest[k]);
        }
    }
}

impl Database {
    /// A track row's foreign keys resolve inside this database.
    pub open spec fn row_valid(self, r: TrackRow) -> bool {
        &&& r.author_id < self.authors@.len()
        &&& r.track_query_result_id < self.track_query_results@.len()
        &&& r.playlist_id < self.playlists@.len()
    }

    /// Well-formedness: ids equal positions, foreign keys resolve, and the
    /// columns that get-or-create operations key on are unique.
    pub open spec fn inv(self) -> bool {
        &&& forall|i: int|
            0 <= i < self.authors@.len() ==> (#[trigger] self.authors@[i]).id == i
        &&& forall|i: int|
            0 <= i < self.track_query_results@.len() ==> (
            #[trigger] self.track_query_results@[i]).id == i
        &&& forall|i: int|
            0 <= i < self.track_queries@.len() ==> (#[trigger] self.track_queries@[i]).id == i
        &&& forall|i: int|
            0 <= i < self.playlists@.len() ==> (#[trigger] self.playlists@[i]).id == i
        &&& forall|i: int|
            0 <= i < self.tracks@.len() ==> (#[trigger] self.tracks@[i]).id == i
        &&& forall|i: int|
            0 <= i < self.tracks@.len() ==> self.row_valid(#[trigger] self.tracks@[i])
        &&& forall|i: int|
            0 <= i < self.track_queries@.len() ==> (#[trigger] self.track_queries@[i]).track_query_result_id
                < self.track_query_results@.len()
        &&& forall|i: int, j: int|
            0 <= i < self.authors@.len() && 0 <= j < self.authors@.len() && i != j
                ==> (#[trigger] self.authors@[i]).external_user_id != (
            #[trigger] self.authors@[j]).external_user_id
        &&& forall|i: int, j: int|
            0 <= i < self.track_queries@.len() && 0 <= j < self.track_queries@.len() && i != j
                ==> (#[trigger] self.track_queries@[i]).query@ != (
            #[trigger] self.track_queries@[j]).query@
    }

    /// The denormalized view of one track row: the join with its author and
    /// resolved metadata.
    pub open spec fn queued_of(self, r: TrackRow) -> QueuedTrackView {
        QueuedTrackView {
            title: self.track_query_results@[r.track_query_result_id as int].title@,
            url: self.track_query_results@[r.track_query_result_id as int].url@,
            duration: self.track_query_results@[r.track_query_result_id as int].duration,
            author_external_id: self.authors@[r.author_id as int].external_user_id,
            author_username: self.authors@[r.author_id as int].username@,
            skip: r.skip,
        }
    }

    /// The join of a row sequence, row by row.
    pub open spec fn queued_seq(self, rows: Seq<TrackRow>) -> Seq<QueuedTrackView> {
        Seq::new(rows.len(), |i: int| self.queued_of(rows[i]))
    }

    /// The queue projection of one playlist: its non-skipped tracks, in
    /// insertion order, joined to queued tracks.
    pub open spec fn playlist_queue(self, playlist_id: usize) -> Seq<QueuedTrackView> {
        self.queued_seq(active_rows(self.tracks@, playlist_id))
    }

    /// The denormalized view of one enqueue event as it was added: the join,
    /// with the soft-delete mark clear.
    pub open spec fn added_of(self, r: TrackRow) -> QueuedTrackView {
        QueuedTrackView { skip: false, ..self.queued_of(r) }
    }

    /// The as-added join of a row sequence, row by row.
    pub open spec fn added_seq(self, rows: Seq<TrackRow>) -> Seq<QueuedTrackView> {
        Seq::new(rows.len(), |i: int| self.added_of(rows[i]))
    }

    /// The full insertion history of one playlist: every track ever added to
    /// it, in insertion order, soft-deleted or not, each as it was added.
    pub open spec fn playlist_history(self, playlist_id: usize) -> Seq<QueuedTrackView> {
        self.added_seq(member_rows(self.tracks@, playlist_id))
    }

    /// A playlist's queue is a subsequence of its insertion history: however
    /// the queue was built, soft deletion never reorders, duplicates, or
    /// drops a track that was not itself deleted.
    pub proof fn lemma_queue_within_history(self, playlist_id: usize)
        ensures
            subsequence_of(self.playlist_queue(playlist_id), self.playlist_history(playlist_id)),
    {
        lemma_active_sub_member(self.tracks@, playlist_id);
        lemma_active_rows_pred(self.tracks@, playlist_id);
        let a = active_rows(self.tracks@, playlist_id);
        let m = member_rows(self.tracks@, playlist_id);
        let f = choose|f: Seq<int>| maps_subsequence(f, a, m);
        assert(maps_subsequence(f, self.queued_seq(a), self.added_seq(m))) by {
            assert forall|i: int| 0 <= i < f.len() implies 0 <= #[trigger] f[i]
                < self.added_seq(m).len() && self.queued_seq(a)[i] == self.added_seq(m)[f[i]] by {
                assert(a[i] == m[f[i]]);
                assert(track_active(a[i], playlist_id));
                assert(self.queued_of(a[i]) == self.added_of(a[i]));
            }
        }
    }

    /// Soft-deleting a row changes no playlist's insertion history: the
    /// history reads neither the soft-delete mark nor the update stamp.
    pub proof fn lemma_history_ignores_soft_delete(
        self,
        rows: Seq<TrackRow>,
        j: int,
        x: TrackRow,
        playlist_id: usize,
    )
        requires
            0 <= j < rows.len(),
            x == (TrackRow { skip: x.skip, updated_at: x.updated_at, ..rows[j] }),
        ensures
            self.added_seq(member_rows(rows.update(j, x), playlist_id)) == self.added_seq(
                member_rows(rows, playlist_id),
            ),
        decreases rows.len(),
    {
        let rows2 = rows.update(j, x);
        if j == rows.len() - 1 {
            assert(rows2.drop_last() =~= rows.drop_last());
            assert(rows2.last() == x);
            assert(rows.last() == rows[j]);
            let m = member_rows(rows.drop_last(), playlist_id);
            if x.playlist_id == playlist_id {
                assert(member_rows(rows2, playlist_id) == m.push(x));
                assert(member_rows(rows, playlist_id) == m.push(rows[j]));
                assert(self.added_of(x) == self.added_of(rows[j]));
                assert(self.added_seq(m.push(x)) =~= self.added_seq(m.push(rows[j])));
            }
        } else {
            self.lemma_history_ignores_soft_delete(rows.drop_last(), j, x, playlist_id);
            assert(rows2.drop_last() =~= rows.drop_last().update(j, x));
            assert(rows2.last() == rows.last());
            let m1 = member_rows(rows.drop_last().update(j, x), playlist_id);
            let m2 = member_rows(rows.drop_last(), playlist_id);
            assert(self.added_seq(m1) == self.added_seq(m2));
            assert(self.added_seq(m1).len() == m1.len());
            assert(self.added_seq(m2).len() == m2.len());
            assert(m1.len() == m2.len());
            if rows.last().playlist_id == playlist_id {
                assert(member_rows(rows2, playlist_id) == m1.push(rows.last()));
                assert(member_rows(rows, playlist_id) == m2.push(rows.last()));
                assert forall|i: int| 0 <= i < m1.len() + 1 implies self.added_seq(
                    m1.push(rows.last()),
                )[i] == self.added_seq(m2.push(rows.last()))[i] by {
                    if i < m1.len() {
                        assert(self.added_of(m1[i]) == self.added_seq(m1)[i]);
                        assert(self.added_of(m2[i]) == self.added_seq(m2)[i]);
                    }
                }
                assert(self.added_seq(member_rows(rows2, playlist_id)) =~= self.added_seq(
                    member_rows(rows, playlist_id),
                ));
            }
        }
    }

    /// The as-added join does not depend on the tables a track row does not
    /// refer to.
    pub proof fn lemma_added_seq_same_aux(self, other: Database, rows: Seq<TrackRow>)
        requires
            other.authors@ == self.authors@,
            other.track_query_results@ == self.track_query_results@,
        ensures
            other.added_seq(rows) == self.added_seq(rows),
    {
        assert(other.added_seq(rows) =~= self.added_seq(rows));
    }

    /// Rows already in the database keep their as-added join when the author
    /// and metadata tables only grow.
    pub proof fn lemma_added_seq_grow_aux(self, other: Database, rows: Seq<TrackRow>)
        requires
            self.authors@.is_prefix_of(other.authors@),
            self.track_query_results@.is_prefix_of(other.track_query_results@),
            forall|i: int| 0 <= i < rows.len() ==> self.row_valid(#[trigger] rows[i]),
        ensures
            other.added_seq(rows) == self.added_seq(rows),
    {
        self.lemma_queued_seq_grow_aux(other, rows);
        assert forall|i: int| 0 <= i < rows.len() implies other.added_of(rows[i])
            == self.added_of(rows[i]) by {
            assert(other.queued_seq(rows)[i] == self.queued_seq(rows)[i]);
            assert(other.queued_of(rows[i]) == self.queued_of(rows[i]));
        }
        assert(other.added_seq(rows) =~= self.added_seq(rows));
    }

    /// Every row of this playlist's history has valid foreign keys, so a
    /// growth of the author or metadata tables leaves the history unchanged.
    pub proof fn lemma_playlist_history_stable(self, other: Database, playlist_id: usize)
        requires
            self.inv(),
            other.tracks@ == self.tracks@,
            self.authors@.is_prefix_of(other.authors@),
            self.track_query_results@.is_prefix_of(other.track_query_results@),
        ensures
            other.playlist_history(playlist_id) == self.playlist_history(playlist_id),
    {
        let rows = member_rows(self.tracks@, playlist_id);
        lemma_member_rows_sub(self.tracks@, playlist_id);
        assert forall|i: int| 0 <= i < rows.len() implies self.row_valid(#[trigger] rows[i]) by {
            assert(self.tracks@.contains(rows[i]));
            let j = choose|j: int| 0 <= j < self.tracks@.len() && self.tracks@[j] == rows[i];
            assert(self.row_valid(self.tracks@[j]));
        }
        self.lemma_added_seq_grow_aux(other, rows);
    }

    /// The join does not depend on the tables a track row does not refer to:
    /// two databases with the same author and metadata tables join any rows
    /// alike.
    pub proof fn lemma_queued_seq_same_aux(self, other: Database, rows: Seq<TrackRow>)
        requires
            other.authors@ == self.authors@,
            other.track_query_results@ == self.track_query_results@,
        ensures
            other.queued_seq(rows) == self.queued_seq(rows),
    {
        assert(other.queued_seq(rows) =~= self.queued_seq(rows));
    }

    /// Rows already in the database keep their join when the author and
    /// metadata tables only grow.
    pub proof fn lemma_queued_seq_grow_aux(self, other: Database, rows: Seq<TrackRow>)
        requires
            self.authors@.is_prefix_of(other.authors@),
            self.track_query_results@.is_prefix_of(other.track_query_results@),
            forall|i: int| 0 <= i < rows.len() ==> self.row_valid(#[trigger] rows[i]),
        ensures
            other.queued_seq(rows) == self.queued_seq(rows),
    {
        assert forall|i: int| 0 <= i < rows.len() implies other.queued_of(rows[i])
            == self.queued_of(rows[i]) by {
            assert(self.row_valid(rows[i]));
            assert(other.authors@[rows[i].author_id as int] == self.authors@[rows[i].author_id
                as int]);
            assert(other.track_query_results@[rows[i].track_query_result_id as int]
                == self.track_query_results@[rows[i].track_query_result_id as int]);
        }
        assert(other.queued_seq(rows) =~= self.queued_seq(rows));
    }

    /// Queue projections read only the track, author and metadata tables:
    /// with those equal, every playlist's queue is equal.
    pub proof fn lemma_playlist_queue_same_tables(self, other: Database)
        requires
            other.tracks@ == self.tracks@,
            other.authors@ == self.authors@,
            other.track_query_results@ == self.track_query_results@,
        ensures
            forall|p: usize| other.playlist_queue(p) == self.playlist_queue(p),
    {
        assert forall|p: usize| other.playlist_queue(p) == self.playlist_queue(p) by {
            self.lemma_queued_seq_same_aux(other, active_rows(self.tracks@, p));
        }
    }

    /// Every row of this playlist's projection has valid foreign keys, so a
    /// growth of the author or metadata tables leaves the projection's join
    /// unchanged.
    pub proof fn lemma_playlist_queue_stable(self, other: Database, playlist_id: usize)
        requires
            self.inv(),
            other.tracks@ == self.tracks@,
            self.authors@.is_prefix_of(other.authors@),
            self.track_query_results@.is_prefix_of(other.track_query_results@),
        ensures
            other.playlist_queue(playlist_id) == self.playlist_queue(playlist_id),
    {
        let rows = active_rows(self.tracks@, playlist_id);
        lemma_active_rows_sub(self.tracks@, playlist_id);
        assert forall|i: int| 0 <= i < rows.len() implies self.row_valid(#[trigger] rows[i]) by {
            assert(self.tracks@.contains(rows[i]));
            let j = choose|j: int| 0 <= j < self.tracks@.len() && self.tracks@[j] == rows[i];
            assert(self.row_valid(self.tracks@[j]));
        }
        self.lemma_queued_seq_grow_aux(other, rows);
    }

    /// An empty database.
    pub fn new() -> (d: Database)
        ensures
            d.inv(),
            d.authors@ =~= Seq::<AuthorRow>::empty(),
            d.track_query_results@ =~= Seq::<TrackQueryResultRow>::empty(),
            d.track_queries@ =~= Seq::<TrackQueryRow>::empty(),
            d.playlists@ =~= Seq::<PlaylistRow>::empty(),
            d.tracks@ =~= Seq::<TrackRow>::empty(),
            d.clock == 0,
    {
        Database {
            authors: Vec::new(),
            track_query_results: Vec::new(),
            track_queries: Vec::new(),
            playlists: Vec::new(),
            tracks: Vec::new(),
            clock: 0,
        }
    }

    /// There is an author row for this external user id.
    pub open spec fn has_author(self, external_user_id: u64) -> bool {
        exists|j: int|
            0 <= j < self.authors@.len() && (#[trigger] self.authors@[j]).external_user_id
                == external_user_id
    }

    /// The author row for an external user id; well-defined under `inv`
    /// because external user ids are unique.
    pub open spec fn author_by_ext(self, external_user_id: u64) -> AuthorRow {
        self.authors@[choose|j: int|
            0 <= j < self.authors@.len() && (#[trigger] self.authors@[j]).external_user_id
                == external_user_id]
    }

    /// Under `inv`, any row holding the external user id is the row that
    /// `author_by_ext` denotes.
    pub proof fn lemma_author_by_ext_at(self, j: int)
        requires
            self.inv(),
            0 <= j < self.authors@.len(),
        ensures
            self.author_by_ext(self.authors@[j].external_user_id) == self.authors@[j],
            self.has_author(self.authors@[j].external_user_id),
    {
        let ext = self.authors@[j].external_user_id;
        assert(self.has_author(ext));
        let j2 = choose|j2: int|
            0 <= j2 < self.authors@.len() && (#[trigger] self.authors@[j2]).external_user_id
                == ext;
        assert(j2 == j);
    }

    /// There is a resolved-metadata row with exactly this title, url and
    /// duration: the key the get-or-create resolution goes by.
    pub open spec fn has_result(self, title: Seq<char>, url: Seq<char>, duration: u64) -> bool {
        exists|j: int|
            0 <= j < self.track_query_results@.len() && {
                let row = #[trigger] self.track_query_results@[j];
                row.title@ == title && row.url@ == url && row.duration == duration
            }
    }

    /// There is a memo row for this query string.
    pub open spec fn has_memo(self, query: Seq<char>) -> bool {
        exists|j: int|
            0 <= j < self.track_queries@.len() && (#[trigger] self.track_queries@[j]).query@
                == query
    }

    /// The memo row for a query string; well-defined under `inv` because
    /// query strings are unique across memo rows.
    pub open spec fn memo_row(self, query: Seq<char>) -> TrackQueryRow {
        self.track_queries@[choose|j: int|
            0 <= j < self.track_queries@.len() && (#[trigger] self.track_queries@[j]).query@
                == query]
    }

    /// The resolved metadata a memo row points at, as the value handed back
    /// to callers of the cache lookup.
    pub open spec fn memo_result(self, query: Seq<char>) -> TrackQueryResultView {
        let row = self.track_query_results@[self.memo_row(query).track_query_result_id as int];
        TrackQueryResultView { title: row.title@, url: row.url@, duration: row.duration }
    }

    /// Under `inv`, any memo row holding the query string is the row that
    /// `memo_row` denotes.
    pub proof fn lemma_memo_row_at(self, j: int)
        requires
            self.inv(),
            0 <= j < self.track_queries@.len(),
        ensures
            self.memo_row(self.track_queries@[j].query@) == self.track_queries@[j],
            self.has_memo(self.track_queries@[j].query@),
    {
        let q = self.track_queries@[j].query@;
        assert(self.has_memo(q));
        let j2 = choose|j2: int|
            0 <= j2 < self.track_queries@.len() && (#[trigger] self.track_queries@[j2]).query@
                == q;
        assert(j2 == j);
    }

    /// Advances the logical clock and returns the new time. The clock
    /// saturates rather than wrapping.
    pub fn tick(&mut self) -> (now: u64)
        ensures
            *final(self) == (Database { clock: final(self).clock, ..*old(self) }),
            final(self).clock == if old(self).clock < u64::MAX {
                (old(self).clock + 1) as u64
            } else {
                old(self).clock
            },
            now == final(self).clock,
    {
        if self.clock < u64::MAX {
            self.clock = self.clock + 1;
        }
        self.clock
    }

    /// Position of the author row with this external user id, if any.
    pub fn find_author(&self, external_user_id: u64) -> (r: Option<usize>)
        ensures
            match r {
                Some(i) => i < self.authors@.len() && self.authors@[i as int].external_user_id
                    == external_user_id,
                None => !self.has_author(external_user_id),
            },
    {
        let n = self.authors.len();
        let mut i: usize = 0;
        while i < n
            invariant
                n == self.authors@.len(),
                i <= n,
                forall|j: int|
                    0 <= j < i ==> (#[trigger] self.authors@[j]).external_user_id
                        != external_user_id,
            decreases n - i,
        {
            if self.authors[i].external_user_id == external_user_id {
                return Some(i);
            }
            i = i + 1;
        }
        None
    }

    /// Resolves the author for an external user, creating the row on a miss.
    /// An existing author keeps its stored display name: repeated additions
    /// by the same user do not rewrite it.
    pub fn get_or_create_author(&mut self, external_user_id: u64, username: &String) -> (i:
        usize)
        requires
            old(self).inv(),
        ensures
            final(self).inv(),
            *final(self) == (Database {
                authors: final(self).authors,
                clock: final(self).clock,
                ..*old(self)
            }),
            i < final(self).authors@.len(),
            final(self).authors@[i as int].external_user_id == external_user_id,
            final(self).author_by_ext(external_user_id) == final(self).authors@[i as int],
            old(self).has_author(external_user_id) ==> final(self).authors@ == old(
                self,
            ).authors@ && final(self).clock == old(self).clock,
            !old(self).has_author(external_user_id) ==> final(self).authors@ == old(
                self,
            ).authors@.push(
                AuthorRow {
                    id: old(self).authors@.len() as usize,
                    external_user_id,
                    username: *username,
                    created_at: final(self).clock,
                    updated_at: final(self).clock,
                },
            ),
    {
        match self.find_author(external_user_id) {
            Some(i) => {
                proof {
                    self.lemma_author_by_ext_at(i as int);
                }
                i
            },
            None => {
                let now = self.tick();
                let i = self.authors.len();
                self.authors.push(
                    AuthorRow {
                        id: i,
                        external_user_id,
                        username: username.clone(),
                        created_at: now,
                        updated_at: now,
                    },
                );
                proof {
                    assert forall|k: int| 0 <= k < self.tracks@.len() implies self.row_valid(
                        #[trigger] self.tracks@[k],
                    ) by {
                        assert(old(self).row_valid(old(self).tracks@[k]));
                    }
                    assert(self.inv());
                    self.lemma_author_by_ext_at(i as int);
                }
                i
            },
        }
    }

    /// Position of the resolved-metadata row with this exact title, url and
    /// duration, if any.
    pub fn find_track_query_result_row(&self, title: &String, url: &String, duration: u64) -> (r:
        Option<usize>)
        ensures
            match r {
                Some(i) => {
                    &&& i < self.track_query_results@.len()
                    &&& self.track_query_results@[i as int].title@ == title@
                    &&& self.track_query_results@[i as int].url@ == url@
                    &&& self.track_query_results@[i as int].duration == duration
                },
                None => !self.has_result(title@, url@, duration),
            },
    {
        let n = self.track_query_results.len();
        let mut i: usize = 0;
        while i < n
            invariant
                n == self.track_query_results@.len(),
                i <= n,
                forall|j: int|
                    0 <= j < i ==> {
                        let row = #[trigger] self.track_query_results@[j];
                        row.title@ != title@ || row.url@ != url@ || row.duration != duration
                    },
            decreases n - i,
        {
            let row = &self.track_query_results[i];
            if row.title == *title && row.url == *url && row.duration == duration {
                proof {
                    assert(self.track_query_results@[i as int].title@ == title@);
                    assert(self.track_query_results@[i as int].url@ == url@);
                }
                return Some(i);
            }
            i = i + 1;
        }
        None
    }

    /// Resolves metadata by its (title, url, duration) key, creating the row
    /// on a miss.
    pub fn get_or_create_track_query_result(
        &mut self,
        title: &String,
        url: &String,
        duration: u64,
    ) -> (i: usize)
        requires
            old(self).inv(),
        ensures
            final(self).inv(),
            *final(self) == (Database {
                track_query_results: final(self).track_query_results,
                clock: final(self).clock,
                ..*old(self)
            }),
            old(self).track_query_results@.is_prefix_of(final(self).track_query_results@),
            i < final(self).track_query_results@.len(),
            final(self).track_query_results@[i as int].title@ == title@,
            final(self).track_query_results@[i as int].url@ == url@,
            final(self).track_query_results@[i as int].duration == duration,
            old(self).has_result(title@, url@, duration) ==> final(self).track_query_results@
                == old(self).track_query_results@ && final(self).clock == old(self).clock,
            !old(self).has_result(title@, url@, duration) ==> i == old(
                self,
            ).track_query_results@.len() && final(self).track_query_results@ == old(
                self,
            ).track_query_results@.push(
                (TrackQueryResultRow {
                    id: i,
                    title: *title,
                    url: *url,
                    duration,
                    created_at: final(self).clock,
                    updated_at: final(self).clock,
                }),
            ),
    {
        match self.find_track_query_result_row(title, url, duration) {
            Some(i) => {
                proof {
                    assert(self.track_query_results@.is_prefix_of(self.track_query_results@));
                }
                i
            },
            None => {
                let now = self.tick();
                let i = self.track_query_results.len();
                self.track_query_results.push(
                    TrackQueryResultRow {
                        id: i,
                        title: title.clone(),
                        url: url.clone(),
                        duration,
                        created_at: now,
                        updated_at: now,
                    },
                );
                proof {
                    assert(old(self).track_query_results@.is_prefix_of(
                        self.track_query_results@,
                    ));
                    assert forall|k: int| 0 <= k < self.tracks@.len() implies self.row_valid(
                        #[trigger] self.tracks@[k],
                    ) by {
                        assert(old(self).row_valid(old(self).tracks@[k]));
                    }
                    assert(self.inv());
                }
                i
            },
        }
    }

    /// Position of the memo row for this exact query string, if any.
    pub fn find_track_query(&self, query: &String) -> (r: Option<usize>)
        ensures
            match r {
                Some(i) => i < self.track_queries@.len() && self.track_queries@[i as int].query@
                    == query@,
                None => !self.has_memo(query@),
            },
    {
        let n = self.track_queries.len();
        let mut i: usize = 0;
        while i < n
            invariant
                n == self.track_queries@.len(),
                i <= n,
                forall|j: int| 0 <= j < i ==> (#[trigger] self.track_queries@[j]).query@ != query@,
            decreases n - i,
        {
            if self.track_queries[i].query == *query {
                return Some(i);
            }
            i = i + 1;
        }
        None
    }

    /// Appends a fresh playlist row for a channel and returns its position.
    pub fn create_playlist(&mut self, channel_id: u64) -> (i: usize)
        requires
            old(self).inv(),
        ensures
            final(self).inv(),
            *final(self) == (Database {
                playlists: final(self).playlists,
                clock: final(self).clock,
                ..*old(self)
            }),
            i == old(self).playlists@.len(),
            final(self).playlists@ == old(self).playlists@.push(
                PlaylistRow {
                    id: i,
                    channel_id,
                    current_track: None,
                    last_track: false,
                    created_at: final(self).clock,
                    updated_at: final(self).clock,
                },
            ),
    {
        let now = self.tick();
        let i = self.playlists.len();
        self.playlists.push(
            PlaylistRow {
                id: i,
                channel_id,
                current_track: None,
                last_track: false,
                created_at: now,
                updated_at: now,
            },
        );
        proof {
            assert forall|k: int| 0 <= k < self.tracks@.len() implies self.row_valid(
                #[trigger] self.tracks@[k],
            ) by {
                assert(old(self).row_valid(old(self).tracks@[k]));
            }
            assert(self.inv());
        }
        i
    }
}

} // verus!
