use hottest100::store::RankingStore;
use hottest100::types::Song;

fn ranked(name: &str, artist: &str, uri: &str, rank: i32) -> Song {
    Song {
        key: None,
        name: name.to_string(),
        uri: uri.to_string(),
        artist: artist.to_string(),
        album_cover_url: String::new(),
        rank: Some(rank),
    }
}

#[test]
fn empty_aggregate_is_an_empty_sequence() {
    let store = RankingStore::new();
    let order = store.get_song_rankings();
    assert!(order.is_empty());
}

#[test]
fn scoring_prefers_count_and_average() {
    // Song A ranked first by three users: count 3, average 1,
    // score 3 + 0.15 * 10 = 4.5.
    // Song B ranked first once and tenth twice: count 3, average 7,
    // score 3 + 0.15 * 4 = 3.6.  Expect A before B.
    let mut store = RankingStore::new();
    store
        .submit_rankings(
            &"u1".to_string(),
            &vec![ranked("Alpha", "X", "uri:a", 1), ranked("Beta", "Y", "uri:b", 10)],
        )
        .unwrap();
    store
        .submit_rankings(
            &"u2".to_string(),
            &vec![ranked("Alpha", "X", "uri:a", 1), ranked("Beta", "Y", "uri:b", 10)],
        )
        .unwrap();
    store
        .submit_rankings(
            &"u3".to_string(),
            &vec![ranked("Beta", "Y", "uri:b", 1), ranked("Alpha", "X", "uri:a", 2)],
        )
        .unwrap();
    // counts: Alpha 3 (ranks 1,1,2), Beta 3 (ranks 10,10,1)
    // Alpha: 3 + 0.15 * (11 - 4/3) = 4.45; Beta: 3 + 0.15 * (11 - 7) = 3.6
    let order = store.get_song_rankings();
    assert_eq!(order, vec!["uri:a".to_string(), "uri:b".to_string()]);
}

#[test]
fn scoring_exact_scenario() {
    // A: three users at rank 1 -> score 4.5.
    // B: one user at rank 1, two at rank 10 -> score 3.6.
    let mut store = RankingStore::new();
    store
        .submit_rankings(&"u1".to_string(), &vec![ranked("A", "X", "uri:a", 1)])
        .unwrap();
    store
        .submit_rankings(&"u2".to_string(), &vec![ranked("A", "X", "uri:a", 1)])
        .unwrap();
    store
        .submit_rankings(&"u3".to_string(), &vec![ranked("A", "X", "uri:a", 1)])
        .unwrap();
    store
        .submit_rankings(&"u4".to_string(), &vec![ranked("B", "Y", "uri:b", 1)])
        .unwrap();
    store
        .submit_rankings(&"u5".to_string(), &vec![ranked("B", "Y", "uri:b", 10)])
        .unwrap();
    store
        .submit_rankings(&"u6".to_string(), &vec![ranked("B", "Y", "uri:b", 10)])
        .unwrap();
    let order = store.get_song_rankings();
    assert_eq!(order, vec!["uri:a".to_string(), "uri:b".to_string()]);
}

#[test]
fn tie_break_orders_by_name_ascending() {
    // both songs ranked once at the same slot: identical scores
    let mut store = RankingStore::new();
    store
        .submit_rankings(&"u1".to_string(), &vec![ranked("Zebra", "X", "uri:z", 1)])
        .unwrap();
    store
        .submit_rankings(&"u2".to_string(), &vec![ranked("Aardvark", "Y", "uri:aa", 1)])
        .unwrap();
    let order = store.get_song_rankings();
    assert_eq!(order, vec!["uri:aa".to_string(), "uri:z".to_string()]);
}

#[test]
fn aggregate_has_one_entry_per_song() {
    let mut store = RankingStore::new();
    store
        .submit_rankings(&"u1".to_string(), &vec![ranked("Only", "X", "uri:o", 1)])
        .unwrap();
    store
        .submit_rankings(&"u2".to_string(), &vec![ranked("Only", "X", "uri:o", 2)])
        .unwrap();
    store
        .submit_rankings(&"u3".to_string(), &vec![ranked("Only", "X", "uri:o", 3)])
        .unwrap();
    let order = store.get_song_rankings();
    assert_eq!(order, vec!["uri:o".to_string()]);
}

#[test]
fn popularity_dominates_placement() {
    // Carol alone ranks "Niche" first; "Broad" is ranked (low) by three users.
    // Broad: 3 + 0.15 * (11 - 10) = 3.15; Niche: 1 + 1.5 = 2.5.
    let mut store = RankingStore::new();
    store
        .submit_rankings(&"u1".to_string(), &vec![ranked("Broad", "X", "uri:broad", 10)])
        .unwrap();
    store
        .submit_rankings(&"u2".to_string(), &vec![ranked("Broad", "X", "uri:broad", 10)])
        .unwrap();
    store
        .submit_rankings(&"u3".to_string(), &vec![ranked("Broad", "X", "uri:broad", 10)])
        .unwrap();
    store
        .submit_rankings(&"carol".to_string(), &vec![ranked("Niche", "Y", "uri:niche", 1)])
        .unwrap();
    let order = store.get_song_rankings();
    assert_eq!(order, vec!["uri:broad".to_string(), "uri:niche".to_string()]);
}
