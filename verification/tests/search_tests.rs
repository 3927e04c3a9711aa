use hottest100::search::dedup_candidates;
use hottest100::types::Song;

fn candidate(name: &str, artist: &str, uri: &str) -> Song {
    Song {
        key: None,
        name: name.to_string(),
        uri: uri.to_string(),
        artist: artist.to_string(),
        album_cover_url: format!("http://covers/{}", uri),
        rank: None,
    }
}

#[test]
fn dedup_empty_is_empty() {
    let out = dedup_candidates(&vec![], 3);
    assert!(out.is_empty());
}

#[test]
fn dedup_keeps_first_of_each_identity() {
    let cands = vec![
        candidate("Song", "Artist", "uri:1"),
        candidate("Song", "Artist", "uri:2"),
        candidate("Other", "Artist", "uri:3"),
        candidate("Song", "Artist", "uri:4"),
    ];
    let out = dedup_candidates(&cands, 5);
    assert_eq!(out.len(), 2);
    assert_eq!(out[0].uri, "uri:1");
    assert_eq!(out[1].uri, "uri:3");
}

#[test]
fn dedup_decorates_key_and_rank() {
    let cands = vec![candidate("Song", "Artist", "uri:1")];
    let out = dedup_candidates(&cands, 7);
    assert_eq!(out[0].key, Some("SongArtist".to_string()));
    assert_eq!(out[0].rank, Some(7));
    assert_eq!(out[0].name, "Song");
    assert_eq!(out[0].artist, "Artist");
    assert_eq!(out[0].album_cover_url, "http://covers/uri:1");
}

#[test]
fn dedup_distinguishes_artists() {
    let cands = vec![
        candidate("Same Name", "Artist One", "uri:1"),
        candidate("Same Name", "Artist Two", "uri:2"),
    ];
    let out = dedup_candidates(&cands, 1);
    assert_eq!(out.len(), 2);
}

#[test]
fn dedup_preserves_first_occurrence_order() {
    let cands = vec![
        candidate("C", "Z", "uri:c"),
        candidate("A", "Z", "uri:a"),
        candidate("C", "Z", "uri:c2"),
        candidate("B", "Z", "uri:b"),
    ];
    let out = dedup_candidates(&cands, 2);
    let uris: Vec<&str> = out.iter().map(|s| s.uri.as_str()).collect();
    assert_eq!(uris, vec!["uri:c", "uri:a", "uri:b"]);
}
