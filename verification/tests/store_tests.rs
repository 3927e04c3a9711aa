use hottest100::store::RankingStore;
use hottest100::types::{Song, StoreError};

fn song(name: &str, artist: &str, uri: &str, rank: Option<i32>) -> Song {
    Song {
        key: None,
        name: name.to_string(),
        uri: uri.to_string(),
        artist: artist.to_string(),
        album_cover_url: format!("http://covers/{}", name),
        rank,
    }
}

#[test]
fn empty_store_has_nothing() {
    let store = RankingStore::new();
    assert_eq!(store.user_count(), 0);
    assert_eq!(store.song_count(), 0);
    assert_eq!(store.ranking_count(), 0);
}

#[test]
fn get_user_unknown_is_none() {
    let store = RankingStore::new();
    assert!(store.get_user(&"nobody".to_string()).is_none());
    assert!(!store.user_exists(&"nobody".to_string()));
}

#[test]
fn insert_user_assigns_identity() {
    let mut store = RankingStore::new();
    let id = store.insert_user(&"alice".to_string()).unwrap();
    assert_eq!(id, 1);
    let u = store.get_user(&"alice".to_string()).unwrap();
    assert_eq!(u.id, 1);
    assert_eq!(u.name, "alice");
    assert!(store.user_exists(&"alice".to_string()));
}

#[test]
fn insert_user_twice_is_a_conflict() {
    let mut store = RankingStore::new();
    store.insert_user(&"alice".to_string()).unwrap();
    let r = store.insert_user(&"alice".to_string());
    assert_eq!(r, Err(StoreError::ConflictRace));
    assert_eq!(store.user_count(), 1);
}

#[test]
fn get_or_insert_user_creates_once() {
    let mut store = RankingStore::new();
    let a = store.get_or_insert_user(&"alice".to_string()).unwrap();
    let b = store.get_or_insert_user(&"alice".to_string()).unwrap();
    assert_eq!(a, b);
    assert_eq!(store.user_count(), 1);
    let c = store.get_or_insert_user(&"bob".to_string()).unwrap();
    assert_eq!(c.id, 2);
    assert_eq!(store.user_count(), 2);
}

#[test]
fn insert_or_update_ranking_roundtrip() {
    let mut store = RankingStore::new();
    let user = store.get_or_insert_user(&"alice".to_string()).unwrap();
    store
        .insert_or_update_ranking(user.id, 1, &song("Song A", "Artist X", "uri:a", None))
        .unwrap();
    let got = store.get_songs_for_user_name(&"alice".to_string()).unwrap();
    assert_eq!(got.len(), 1);
    assert_eq!(got[0].name, "Song A");
    assert_eq!(got[0].artist, "Artist X");
    assert_eq!(got[0].uri, "uri:a");
    assert_eq!(got[0].rank, Some(1));
    assert_eq!(got[0].key, Some("Song AArtist X".to_string()));
}

#[test]
fn insert_or_update_ranking_rejects_bad_rank() {
    let mut store = RankingStore::new();
    let user = store.get_or_insert_user(&"alice".to_string()).unwrap();
    let r = store.insert_or_update_ranking(user.id, 0, &song("A", "X", "uri:a", None));
    assert_eq!(r, Err(StoreError::InputInvalid));
    let r = store.insert_or_update_ranking(user.id, 11, &song("A", "X", "uri:a", None));
    assert_eq!(r, Err(StoreError::InputInvalid));
    assert_eq!(store.ranking_count(), 0);
}

#[test]
fn insert_or_update_ranking_rejects_missing_identity() {
    let mut store = RankingStore::new();
    let user = store.get_or_insert_user(&"alice".to_string()).unwrap();
    let r = store.insert_or_update_ranking(user.id, 1, &song("", "X", "uri:a", None));
    assert_eq!(r, Err(StoreError::InputInvalid));
    let r = store.insert_or_update_ranking(user.id, 1, &song("A", "", "uri:a", None));
    assert_eq!(r, Err(StoreError::InputInvalid));
    assert_eq!(store.song_count(), 0);
}

#[test]
fn insert_or_update_ranking_unknown_user_fails() {
    let mut store = RankingStore::new();
    let r = store.insert_or_update_ranking(42, 1, &song("A", "X", "uri:a", None));
    assert_eq!(r, Err(StoreError::StorageFailure));
    assert_eq!(store.ranking_count(), 0);
    assert_eq!(store.song_count(), 0);
}

#[test]
fn insert_or_update_songs_rejects_missing_rank() {
    let mut store = RankingStore::new();
    let user = store.get_or_insert_user(&"alice".to_string()).unwrap();
    let list = vec![song("A", "X", "uri:a", Some(1)), song("B", "X", "uri:b", None)];
    let r = store.insert_or_update_songs(user.id, &list);
    assert_eq!(r, Err(StoreError::InputInvalid));
    assert_eq!(store.song_count(), 0);
    assert_eq!(store.ranking_count(), 0);
}

#[test]
fn submit_rankings_creates_user_and_slots() {
    let mut store = RankingStore::new();
    let list = vec![
        song("Song A", "Artist X", "uri:a", Some(1)),
        song("Song B", "Artist Y", "uri:b", Some(2)),
    ];
    store.submit_rankings(&"alice".to_string(), &list).unwrap();
    assert_eq!(store.user_count(), 1);
    assert_eq!(store.song_count(), 2);
    assert_eq!(store.ranking_count(), 2);
    let got = store.get_songs_for_user_name(&"alice".to_string()).unwrap();
    assert_eq!(got.len(), 2);
    assert_eq!(got[0].name, "Song A");
    assert_eq!(got[1].name, "Song B");
}

#[test]
fn fetch_is_ordered_by_rank_ascending() {
    let mut store = RankingStore::new();
    let list = vec![
        song("Third", "Z", "uri:3", Some(7)),
        song("First", "Z", "uri:1", Some(2)),
        song("Second", "Z", "uri:2", Some(5)),
    ];
    store.submit_rankings(&"alice".to_string(), &list).unwrap();
    let got = store.get_songs_for_user_name(&"alice".to_string()).unwrap();
    let ranks: Vec<Option<i32>> = got.iter().map(|s| s.rank).collect();
    assert_eq!(ranks, vec![Some(2), Some(5), Some(7)]);
    let names: Vec<&str> = got.iter().map(|s| s.name.as_str()).collect();
    assert_eq!(names, vec!["First", "Second", "Third"]);
}

#[test]
fn idempotent_replace() {
    let mut store = RankingStore::new();
    let list = vec![
        song("Song A", "Artist X", "uri:a", Some(1)),
        song("Song B", "Artist Y", "uri:b", Some(2)),
        song("Song C", "Artist Z", "uri:c", Some(3)),
    ];
    store.submit_rankings(&"alice".to_string(), &list).unwrap();
    let first = store.get_songs_for_user_name(&"alice".to_string()).unwrap();
    let users = store.user_count();
    let songs = store.song_count();
    let rankings = store.ranking_count();

    store.submit_rankings(&"alice".to_string(), &list).unwrap();
    let second = store.get_songs_for_user_name(&"alice".to_string()).unwrap();
    assert_eq!(first, second);
    assert_eq!(store.user_count(), users);
    assert_eq!(store.song_count(), songs);
    assert_eq!(store.ranking_count(), rankings);
}

#[test]
fn slot_uniqueness_on_resubmit() {
    let mut store = RankingStore::new();
    store
        .submit_rankings(&"alice".to_string(), &vec![song("Old", "X", "uri:old", Some(3))])
        .unwrap();
    store
        .submit_rankings(&"alice".to_string(), &vec![song("New", "Y", "uri:new", Some(3))])
        .unwrap();
    assert_eq!(store.ranking_count(), 1);
    let got = store.get_songs_for_user_name(&"alice".to_string()).unwrap();
    assert_eq!(got.len(), 1);
    assert_eq!(got[0].name, "New");
    assert_eq!(got[0].rank, Some(3));
}

#[test]
fn catalog_dedup_across_users() {
    let mut store = RankingStore::new();
    let shared = song("Shared", "Artist", "uri:s", Some(1));
    store.submit_rankings(&"alice".to_string(), &vec![shared]).unwrap();
    let shared = song("Shared", "Artist", "uri:s", Some(4));
    store.submit_rankings(&"bob".to_string(), &vec![shared]).unwrap();
    assert_eq!(store.song_count(), 1);
    assert_eq!(store.ranking_count(), 2);
}

#[test]
fn catalog_metadata_last_writer_wins() {
    let mut store = RankingStore::new();
    store
        .submit_rankings(&"alice".to_string(), &vec![song("S", "A", "uri:v1", Some(1))])
        .unwrap();
    store
        .submit_rankings(&"bob".to_string(), &vec![song("S", "A", "uri:v2", Some(1))])
        .unwrap();
    assert_eq!(store.song_count(), 1);
    let got = store.get_songs_for_user_name(&"alice".to_string()).unwrap();
    assert_eq!(got[0].uri, "uri:v2");
}

#[test]
fn atomicity_of_failed_submission() {
    let mut store = RankingStore::new();
    store
        .submit_rankings(&"alice".to_string(), &vec![song("Keep", "K", "uri:k", Some(1))])
        .unwrap();
    let before_users = store.user_count();
    let before_songs = store.song_count();
    let before_rankings = store.ranking_count();
    let before = store.get_songs_for_user_name(&"alice".to_string()).unwrap();
    let before_order = store.get_song_rankings();

    // the first entry is fine, the second is invalid: nothing may change
    let bad = vec![
        song("NewOne", "N", "uri:n1", Some(2)),
        song("NewTwo", "N", "uri:n2", Some(12)),
    ];
    let r = store.submit_rankings(&"alice".to_string(), &bad);
    assert_eq!(r, Err(StoreError::InputInvalid));

    assert_eq!(store.user_count(), before_users);
    assert_eq!(store.song_count(), before_songs);
    assert_eq!(store.ranking_count(), before_rankings);
    assert_eq!(store.get_songs_for_user_name(&"alice".to_string()).unwrap(), before);
    assert_eq!(store.get_song_rankings(), before_order);
}

#[test]
fn unknown_user_is_not_an_empty_list() {
    let mut store = RankingStore::new();
    let r = store.get_songs_for_user_name(&"ghost".to_string());
    assert_eq!(r, Err(StoreError::NotFound));

    // a known user with no rankings is an empty list, not an error
    store.get_or_insert_user(&"alice".to_string()).unwrap();
    let got = store.get_songs_for_user_name(&"alice".to_string()).unwrap();
    assert!(got.is_empty());
}

#[test]
fn sparse_resubmission_leaves_other_slots() {
    let mut store = RankingStore::new();
    let full = vec![
        song("One", "A", "uri:1", Some(1)),
        song("Two", "A", "uri:2", Some(2)),
    ];
    store.submit_rankings(&"alice".to_string(), &full).unwrap();
    // only slot 1 is mentioned; slot 2 keeps its old song
    store
        .submit_rankings(&"alice".to_string(), &vec![song("Uno", "B", "uri:u", Some(1))])
        .unwrap();
    let got = store.get_songs_for_user_name(&"alice".to_string()).unwrap();
    assert_eq!(got.len(), 2);
    assert_eq!(got[0].name, "Uno");
    assert_eq!(got[1].name, "Two");
}

#[test]
fn duplicate_rank_in_one_submission_last_wins() {
    let mut store = RankingStore::new();
    let list = vec![
        song("Early", "A", "uri:e", Some(5)),
        song("Late", "B", "uri:l", Some(5)),
    ];
    store.submit_rankings(&"alice".to_string(), &list).unwrap();
    assert_eq!(store.ranking_count(), 1);
    let got = store.get_songs_for_user_name(&"alice".to_string()).unwrap();
    assert_eq!(got.len(), 1);
    assert_eq!(got[0].name, "Late");
}
