use hottest100::auth::{auth_url, spotify_user_id};

#[test]
fn auth_url_encodes_the_redirect() {
    let url = auth_url("myclient", "https://example.com/callback");
    let expected = format!(
        "{}{}{}",
        "https://accounts.spotify.com/authorize?client_id=myclient",
        "&response_type=code&redirect_uri=https%3A%2F%2Fexample.com%2Fcallback",
        "&scope=playlist-modify-public%20user-read-private&state=random_state_string",
    );
    assert_eq!(url, expected);
}

#[test]
fn auth_url_leaves_plain_text_alone() {
    let url = auth_url("abc", "plainhost");
    assert!(url.contains("&redirect_uri=plainhost&"));
}

#[test]
fn user_id_is_the_third_segment() {
    assert_eq!(spotify_user_id("spotify:user:alice"), Some("alice".to_string()));
    assert_eq!(spotify_user_id("a:b:c:d"), Some("c".to_string()));
    assert_eq!(spotify_user_id("a::c"), Some("c".to_string()));
}

#[test]
fn user_id_missing_segments_is_none() {
    assert_eq!(spotify_user_id("nocolons"), None);
    assert_eq!(spotify_user_id("only:one"), None);
    assert_eq!(spotify_user_id("::"), Some("".to_string()));
}
