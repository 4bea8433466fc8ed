use vstd::prelude::*;

verus! {

/// Resolved metadata for one piece of media. Cached per search query so that
/// repeated lookups of the same string avoid re-resolution.
pub struct TrackQueryResult {
    pub title: String,
    pub url: String,
    pub duration: u64,
}

/// The mathematical value of a `TrackQueryResult`: its strings as character
/// sequences.
pub ghost struct TrackQueryResultView {
    pub title: Seq<char>,
    pub url: Seq<char>,
    pub duration: u64,
}

impl View for TrackQueryResult {
    type V = TrackQueryResultView;

    open spec fn view(&self) -> TrackQueryResultView {
        TrackQueryResultView { title: self.title@, url: self.url@, duration: self.duration }
    }
}

impl DeepView for TrackQueryResult {
    type V = TrackQueryResultView;

    open spec fn deep_view(&self) -> TrackQueryResultView {
        self@
    }
}

/// The mathematical value of a `QueuedTrack`.
pub ghost struct QueuedTrackView {
    pub title: Seq<char>,
    pub url: Seq<char>,
    pub duration: u64,
    pub author_external_id: u64,
    pub author_username: Seq<char>,
    pub skip: bool,
}

impl View for QueuedTrack {
    type V = QueuedTrackView;

    open spec fn view(&self) -> QueuedTrackView {
        QueuedTrackView {
            title: self.title@,
            url: self.url@,
            duration: self.duration,
            author_external_id: self.author_external_id,
            author_username: self.author_username@,
            skip: self.skip,
        }
    }
}

impl DeepView for QueuedTrack {
    type V = QueuedTrackView;

    open spec fn deep_view(&self) -> QueuedTrackView {
        self@
    }
}

/// One requested track as playback and display logic sees it: the
/// denormalized join of a track row with its author and resolved metadata.
/// `skip` marks a soft-deleted track, excluded from the active queue
/// projection but retained for history.
pub struct QueuedTrack {
    pub title: String,
    pub url: String,
    pub duration: u64,
    pub author_external_id: u64,
    pub author_username: String,
    pub skip: bool,
}

impl Clone for QueuedTrack {
    fn clone(&self) -> (res: QueuedTrack)
        ensures
            res == *self,
    {
        QueuedTrack {
            title: self.title.clone(),
            url: self.url.clone(),
            duration: self.duration,
            author_external_id: self.author_external_id,
            author_username: self.author_username.clone(),
            skip: self.skip,
        }
    }
}

impl QueuedTrack {
    pub fn new(
        title: String,
        url: String,
        duration: u64,
        author_external_id: u64,
        author_username: String,
    ) -> (t: QueuedTrack)
        ensures
            t == (QueuedTrack {
                title,
                url,
                duration,
                author_external_id,
                author_username,
                skip: false,
            }),
    {
        QueuedTrack { title, url, duration, author_external_id, author_username, skip: false }
    }

    pub fn title(&self) -> (r: &String)
        ensures
            *r == self.title,
    {
        &self.title
    }

    pub fn url(&self) -> (r: &String)
        ensures
            *r == self.url,
    {
        &self.url
    }

    pub fn duration(&self) -> (r: u64)
        ensures
            r == self.duration,
    {
        self.duration
    }

    pub fn author(&self) -> (r: u64)
        ensures
            r == self.author_external_id,
    {
        self.author_external_id
    }

    pub fn username(&self) -> (r: &String)
        ensures
            *r == self.author_username,
    {
        &self.author_username
    }

    /// The name shown to users in notifications.
    pub fn name(&self) -> (r: &String)
        ensures
            *r == self.title,
    {
        &self.title
    }

    /// Marks this in-memory copy as skipped; the store persists such a copy
    /// through an update, never by direct field mutation of a row.
    pub fn skip_track(&mut self)
        ensures
            *final(self) == (QueuedTrack { skip: true, ..*old(self) }),
    {
        self.skip = true;
    }
}

} // verus!
