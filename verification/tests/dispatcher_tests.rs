use playback_queue::guild_action::{
    Action, GuildStoresActionHandler, Notification, Remove, SongEndNotifier,
};
use playback_queue::track::QueuedTrack;

fn track(title: &str) -> QueuedTrack {
    QueuedTrack::new(
        title.to_string(),
        format!("https://example.invalid/{title}"),
        240,
        42,
        "alice".to_string(),
    )
}

fn queue_titles(handler: &GuildStoresActionHandler, guild: u64) -> Vec<String> {
    let entry = handler
        .stores
        .iter()
        .find(|e| e.guild_id == guild)
        .expect("guild should be registered");
    entry.store.queue().iter().map(|t| t.title.clone()).collect()
}

fn is_playing(handler: &GuildStoresActionHandler, guild: u64) -> bool {
    handler
        .stores
        .iter()
        .find(|e| e.guild_id == guild)
        .map(|e| e.store.is_playing())
        .unwrap_or(false)
}

#[test]
fn remove_with_inverted_range_rejects_and_changes_nothing() {
    let mut handler = GuildStoresActionHandler::new();
    handler.handle_action(1, Action::AddTrack(track("a")));
    handler.handle_action(1, Action::AddTrack(track("b")));

    let effects = handler.handle_action(1, Action::Remove(Remove { from: 3, to: Some(1) }));
    assert_eq!(effects.notifications.len(), 1);
    assert!(matches!(
        effects.notifications[0],
        Notification::InvalidRange { from: 3, to: 1 }
    ));
    assert!(effects.attach.is_none());
    assert_eq!(queue_titles(&handler, 1), vec!["a".to_string(), "b".to_string()]);
}

#[test]
fn remove_without_upper_bound_removes_exactly_one_track() {
    let mut handler = GuildStoresActionHandler::new();
    for t in ["a", "b", "c"] {
        handler.handle_action(1, Action::AddTrack(track(t)));
    }
    let effects = handler.handle_action(1, Action::Remove(Remove { from: 1, to: None }));
    assert_eq!(queue_titles(&handler, 1), vec!["a".to_string(), "c".to_string()]);
    assert_eq!(effects.notifications.len(), 1);
    assert!(
        matches!(&effects.notifications[0], Notification::RemovedFromQueue(t) if t.title == "b")
    );
}

#[test]
fn remove_range_removes_every_present_position_in_it() {
    let mut handler = GuildStoresActionHandler::new();
    for t in ["a", "b", "c", "d"] {
        handler.handle_action(1, Action::AddTrack(track(t)));
    }
    let effects = handler.handle_action(1, Action::Remove(Remove { from: 1, to: Some(3) }));
    assert_eq!(queue_titles(&handler, 1), vec!["a".to_string(), "d".to_string()]);
    assert_eq!(effects.notifications.len(), 2);
    assert!(
        matches!(&effects.notifications[0], Notification::RemovedFromQueue(t) if t.title == "b")
    );
    assert!(
        matches!(&effects.notifications[1], Notification::RemovedFromQueue(t) if t.title == "c")
    );
}

#[test]
fn remove_range_past_the_end_is_clipped_silently() {
    let mut handler = GuildStoresActionHandler::new();
    for t in ["a", "b"] {
        handler.handle_action(1, Action::AddTrack(track(t)));
    }
    let effects = handler.handle_action(1, Action::Remove(Remove { from: 1, to: Some(9) }));
    assert_eq!(queue_titles(&handler, 1), vec!["a".to_string()]);
    assert_eq!(effects.notifications.len(), 1);
}

#[test]
fn end_to_end_playback_walks_the_queue_and_announces_the_end() {
    let mut handler = GuildStoresActionHandler::new();
    handler.handle_action(1, Action::AddTrack(track("a")));
    handler.handle_action(1, Action::AddTrack(track("b")));

    let effects = handler.play_next_track(1);
    assert!(is_playing(&handler, 1));
    assert_eq!(effects.notifications.len(), 1);
    assert!(matches!(&effects.notifications[0], Notification::NowPlaying(t) if t.title == "a"));
    assert!(matches!(&effects.attach, Some(t) if t.title == "a"));

    // the audio engine reports end of track from its own context; it only
    // submits actions back through the dispatcher
    let notifier = SongEndNotifier::new(1);
    let mut effects = Vec::new();
    for action in notifier.act() {
        effects.push(handler.handle_action(1, action));
    }
    let played = &effects[1];
    assert!(matches!(&played.notifications[0], Notification::NowPlaying(t) if t.title == "b"));
    assert!(matches!(&played.attach, Some(t) if t.title == "b"));
    assert!(is_playing(&handler, 1));

    let mut effects = Vec::new();
    for action in notifier.act() {
        effects.push(handler.handle_action(1, action));
    }
    let ended = &effects[1];
    assert_eq!(ended.notifications.len(), 1);
    assert!(matches!(&ended.notifications[0], Notification::EndOfPlaylist));
    assert!(ended.attach.is_none());
    assert!(!is_playing(&handler, 1));
}

#[test]
fn play_next_track_while_playing_is_a_no_op() {
    let mut handler = GuildStoresActionHandler::new();
    handler.handle_action(1, Action::AddTrack(track("a")));
    handler.handle_action(1, Action::AddTrack(track("b")));
    handler.play_next_track(1);

    let effects = handler.play_next_track(1);
    assert!(effects.notifications.is_empty());
    assert!(effects.attach.is_none());
    assert!(is_playing(&handler, 1));
}

#[test]
fn play_next_track_on_empty_queue_announces_the_end() {
    let mut handler = GuildStoresActionHandler::new();
    let effects = handler.play_next_track(1);
    assert_eq!(effects.notifications.len(), 1);
    assert!(matches!(&effects.notifications[0], Notification::EndOfPlaylist));
    assert!(effects.attach.is_none());
    assert!(!is_playing(&handler, 1));
}

#[test]
fn transport_failure_reverts_to_idle_without_touching_the_queue() {
    let mut handler = GuildStoresActionHandler::new();
    handler.handle_action(1, Action::AddTrack(track("a")));
    handler.play_next_track(1);
    assert!(is_playing(&handler, 1));

    handler.transport_failed(1);
    assert!(!is_playing(&handler, 1));
    assert_eq!(queue_titles(&handler, 1), vec!["a".to_string()]);
}

#[test]
fn concurrent_add_and_skip_match_one_submission_order() {
    // the dispatcher applies two simultaneous submissions in one of the two
    // orders; with the skip naming an existing position both orders agree
    let mut add_first = GuildStoresActionHandler::new();
    add_first.handle_action(1, Action::AddTrack(track("a")));
    add_first.handle_action(1, Action::AddTrack(track("b")));
    add_first.handle_action(1, Action::AddTrack(track("new")));
    add_first.handle_action(1, Action::Skip(0));

    let mut skip_first = GuildStoresActionHandler::new();
    skip_first.handle_action(1, Action::AddTrack(track("a")));
    skip_first.handle_action(1, Action::AddTrack(track("b")));
    skip_first.handle_action(1, Action::Skip(0));
    skip_first.handle_action(1, Action::AddTrack(track("new")));

    let expected = vec!["b".to_string(), "new".to_string()];
    assert_eq!(queue_titles(&add_first, 1), expected);
    assert_eq!(queue_titles(&skip_first, 1), expected);
}

#[test]
fn skip_far_out_of_range_changes_nothing() {
    let mut handler = GuildStoresActionHandler::new();
    handler.handle_action(1, Action::AddTrack(track("a")));
    let effects = handler.handle_action(1, Action::Skip(u64::MAX));
    assert!(effects.notifications.is_empty());
    assert_eq!(queue_titles(&handler, 1), vec!["a".to_string()]);
}

#[test]
fn remove_range_equal_bounds_is_empty_and_silent() {
    let mut handler = GuildStoresActionHandler::new();
    handler.handle_action(1, Action::AddTrack(track("a")));
    let effects = handler.handle_action(1, Action::Remove(Remove { from: 0, to: Some(0) }));
    assert!(effects.notifications.is_empty());
    assert_eq!(queue_titles(&handler, 1), vec!["a".to_string()]);
}

#[test]
fn guilds_are_isolated_from_each_other() {
    let mut handler = GuildStoresActionHandler::new();
    handler.handle_action(1, Action::AddTrack(track("for one")));
    handler.handle_action(2, Action::AddTrack(track("for two")));
    handler.handle_action(1, Action::Skip(0));

    assert!(queue_titles(&handler, 1).is_empty());
    assert_eq!(queue_titles(&handler, 2), vec!["for two".to_string()]);
}

#[test]
fn song_end_notifier_submits_consume_then_play() {
    let notifier = SongEndNotifier::new(9);
    let actions = notifier.act();
    assert_eq!(actions.len(), 2);
    assert!(matches!(actions[0], Action::RemoveCurrentTrack));
    assert!(matches!(actions[1], Action::PlayNextTrack));
}
