use playback_queue::database::Database;
use playback_queue::guild_store::{CurrentTrack, GuildStore};
use playback_queue::mem_store::{MemStore, ToQueuedTracks};
use playback_queue::track::QueuedTrack;

fn track(title: &str, user: u64, name: &str) -> QueuedTrack {
    QueuedTrack::new(
        title.to_string(),
        format!("https://example.invalid/{title}"),
        180,
        user,
        name.to_string(),
    )
}

fn titles(queue: &[QueuedTrack]) -> Vec<String> {
    queue.iter().map(|t| t.title.clone()).collect()
}

#[test]
fn empty_store_has_empty_queue() {
    let store = MemStore::create(Database::new(), 1);
    assert!(store.queue().is_empty());
}

#[test]
fn add_then_skip_excludes_exactly_the_skipped_position() {
    let mut store = MemStore::create(Database::new(), 1);
    store.add_track_to_queue(&track("a", 10, "alice"));
    store.add_track_to_queue(&track("b", 10, "alice"));
    store.add_track_to_queue(&track("c", 11, "bob"));
    store.skip_track(1);
    let queue = store.queue();
    assert_eq!(titles(&queue), vec!["a".to_string(), "c".to_string()]);
    assert_eq!(queue[1].author_username, "bob".to_string());
}

#[test]
fn interleaved_adds_and_skips_keep_a_subsequence_of_the_insertions() {
    let mut store = MemStore::create(Database::new(), 1);
    store.add_track_to_queue(&track("a", 10, "alice"));
    store.add_track_to_queue(&track("b", 10, "alice"));
    store.skip_track(0);
    store.add_track_to_queue(&track("c", 11, "bob"));
    store.skip_track(1);
    store.add_track_to_queue(&track("d", 11, "bob"));

    // what remains is the insertion order with the skipped tracks cut out:
    // never reordered, never duplicated
    assert_eq!(titles(&store.queue()), vec!["b".to_string(), "d".to_string()]);
}

#[test]
fn skip_out_of_range_is_a_silent_no_op() {
    let mut store = MemStore::create(Database::new(), 1);
    store.add_track_to_queue(&track("a", 10, "alice"));
    store.skip_track(5);
    assert_eq!(titles(&store.queue()), vec!["a".to_string()]);
}

#[test]
fn repeated_metadata_and_authors_are_resolved_not_duplicated() {
    let mut store = MemStore::create(Database::new(), 1);
    store.add_track_to_queue(&track("a", 10, "alice"));
    store.add_track_to_queue(&track("a", 10, "alice"));
    assert_eq!(store.db.track_query_results.len(), 1);
    assert_eq!(store.db.authors.len(), 1);
    assert_eq!(store.queue().len(), 2);
}

#[test]
fn existing_author_keeps_stored_display_name() {
    let mut store = MemStore::create(Database::new(), 1);
    store.add_track_to_queue(&track("a", 10, "alice"));
    store.add_track_to_queue(&track("b", 10, "renamed"));
    let queue = store.queue();
    assert_eq!(queue[1].author_username, "alice".to_string());
}

#[test]
fn query_memo_round_trip() {
    let mut store = MemStore::create(Database::new(), 1);
    let t = track("resolved title", 10, "alice");
    store.add_track_query_result(&"some search".to_string(), &t);
    let hit = store
        .find_track_query_result(&"some search".to_string())
        .expect("memoized query should resolve");
    assert_eq!(hit.title, "resolved title".to_string());
    assert_eq!(hit.url, t.url);
    assert_eq!(hit.duration, 180);
}

#[test]
fn unseen_query_finds_nothing() {
    let mut store = MemStore::create(Database::new(), 1);
    store.add_track_query_result(&"stored".to_string(), &track("a", 10, "alice"));
    assert!(store.find_track_query_result(&"unseen".to_string()).is_none());
}

#[test]
fn query_memo_last_write_wins() {
    let mut store = MemStore::create(Database::new(), 1);
    store.add_track_query_result(&"q".to_string(), &track("first", 10, "alice"));
    store.add_track_query_result(&"q".to_string(), &track("second", 10, "alice"));
    let hit = store.find_track_query_result(&"q".to_string()).unwrap();
    assert_eq!(hit.title, "second".to_string());
}

#[test]
fn previous_queue_lists_prior_sessions_most_recent_first() {
    let mut store = MemStore::create(Database::new(), 7);
    store.add_track_to_queue(&track("oldest", 10, "alice"));
    let mut store = MemStore::create(store.db, 7);
    store.add_track_to_queue(&track("middle", 10, "alice"));
    let mut store = MemStore::create(store.db, 7);
    store.add_track_to_queue(&track("active", 10, "alice"));

    let prior = store.previous_queue(10);
    assert_eq!(prior.len(), 2);
    assert_eq!(titles(&prior[0]), vec!["middle".to_string()]);
    assert_eq!(titles(&prior[1]), vec!["oldest".to_string()]);
    for queue in &prior {
        assert!(titles(queue).iter().all(|t| t != "active"));
    }
}

#[test]
fn previous_queue_honors_the_limit() {
    let mut store = MemStore::create(Database::new(), 7);
    for title in ["one", "two", "three"] {
        store.add_track_to_queue(&track(title, 10, "alice"));
        store = MemStore::create(store.db, 7);
    }
    assert_eq!(store.previous_queue(2).len(), 2);
    assert_eq!(store.previous_queue(0).len(), 0);
    assert_eq!(store.previous_queue(99).len(), 3);
}

#[test]
fn create_with_current_playlist_resumes_the_last_session() {
    let mut store = MemStore::create(Database::new(), 7);
    store.add_track_to_queue(&track("kept", 10, "alice"));
    store.set_current_track(CurrentTrack::Index(0));

    // a restart hands the surviving database back in
    let resumed = match MemStore::create_with_current_playlist(store.db, 7) {
        Ok(s) => s,
        Err(_) => panic!("channel with history must resume"),
    };
    assert_eq!(titles(&resumed.queue()), vec!["kept".to_string()]);
    assert_eq!(resumed.playlist().current_track, CurrentTrack::Index(0));
}

#[test]
fn create_with_current_playlist_reports_missing_history() {
    match MemStore::create_with_current_playlist(Database::new(), 7) {
        Ok(_) => panic!("empty database has nothing to resume"),
        Err(db) => {
            assert!(db.playlists.is_empty());
        },
    }
}

#[test]
fn playlist_rows_project_their_own_queues() {
    let mut store = MemStore::create(Database::new(), 7);
    store.add_track_to_queue(&track("first session", 10, "alice"));
    let mut store = MemStore::create(store.db, 7);
    store.add_track_to_queue(&track("second session", 10, "alice"));

    let rows = &store.db.playlists;
    assert_eq!(rows.len(), 2);
    assert_eq!(titles(&rows[0].to_queued_tracks(&store.db)), vec!["first session".to_string()]);
    assert_eq!(titles(&rows[1].to_queued_tracks(&store.db)), vec!["second session".to_string()]);
}

#[test]
fn queued_track_accessors_read_the_fields() {
    let mut t = track("song", 42, "alice");
    assert_eq!(t.title(), "song");
    assert_eq!(t.name(), "song");
    assert_eq!(t.url(), &format!("https://example.invalid/song"));
    assert_eq!(t.duration(), 180);
    assert_eq!(t.author(), 42);
    assert_eq!(t.username(), "alice");
    assert!(!t.skip);
    t.skip_track();
    assert!(t.skip);
}

#[test]
fn playlist_snapshot_round_trips_the_pointer() {
    let mut store = MemStore::create(Database::new(), 1);
    assert_eq!(store.playlist().current_track, CurrentTrack::NothingPlayed);
    store.set_current_track(CurrentTrack::Index(3));
    assert_eq!(store.playlist().current_track, CurrentTrack::Index(3));
    store.set_current_track(CurrentTrack::Last(3));
    assert_eq!(store.playlist().current_track, CurrentTrack::Last(3));
    store.set_current_track(CurrentTrack::NothingPlayed);
    assert_eq!(store.playlist().current_track, CurrentTrack::NothingPlayed);
}

#[test]
fn update_track_persists_only_the_skip_mark() {
    let mut store = GuildStore::new(MemStore::create(Database::new(), 1));
    store.add_track_to_queue(&track("a", 10, "alice"));
    store.add_track_to_queue(&track("b", 10, "alice"));

    let queue = store.queue();
    let untouched = queue[0].clone();
    store.update_track(0, &untouched);
    assert_eq!(titles(&store.queue()), vec!["a".to_string(), "b".to_string()]);

    let mut edited = queue[0].clone();
    edited.skip_track();
    store.update_track(0, &edited);
    assert_eq!(titles(&store.queue()), vec!["b".to_string()]);
}

#[test]
fn next_track_in_queue_peeks_after_the_pointer() {
    let mut store = GuildStore::new(MemStore::create(Database::new(), 1));
    assert!(store.next_track_in_queue().is_none());

    store.add_track_to_queue(&track("a", 10, "alice"));
    store.add_track_to_queue(&track("b", 10, "alice"));
    let first = store.next_track_in_queue().unwrap();
    assert_eq!(first.title, "a".to_string());

    store.set_current_track(CurrentTrack::Index(0));
    let second = store.next_track_in_queue().unwrap();
    assert_eq!(second.title, "b".to_string());

    store.set_current_track(CurrentTrack::Index(1));
    assert!(store.next_track_in_queue().is_none());

    store.set_current_track(CurrentTrack::Last(1));
    assert!(store.next_track_in_queue().is_none());
}
