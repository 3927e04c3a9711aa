use vstd::prelude::*;
use vstd::string::StringExecFns;

verus! {

// ---------------------------------------------------------------------------
// The values handed to the identity provider: the consent address a
// browser is sent to, and the account identity read back out of a profile
// uri of the form `spotify:user:<id>`.
// ---------------------------------------------------------------------------

/// What `urlencoding::encode` returns on this input: a function of the
/// characters alone.
pub uninterp spec fn url_encoded(s: Seq<char>) -> Seq<char>;

/// Relies on urlencoding::encode: percent-encodes every byte outside
/// alphanumerics and '-', '_', '.', '~', and depends on the input alone.
#[verifier::external_body]
fn percent_encode(s: &str) -> (r: String)
    ensures
        r@ == url_encoded(s@),
{
    urlencoding::encode(s).into_owned()
}

/// The address of the consent page for this client, with the redirect
/// address percent-encoded into the query.
pub fn auth_url(client_id: &str, redirect_uri: &str) -> (r: String)
    ensures
        r@ == "https://accounts.spotify.com/authorize?client_id="@ + client_id@
            + "&response_type=code&redirect_uri="@ + url_encoded(redirect_uri@)
            + "&scope=playlist-modify-public%20user-read-private&state=random_state_string"@,
{
    let mut url = String::from_str("https://accounts.spotify.com/authorize?client_id=");
    url.append(client_id);
    url.append("&response_type=code&redirect_uri=");
    let encoded = percent_encode(redirect_uri);
    url.append(encoded.as_str());
    url.append("&scope=playlist-modify-public%20user-read-private&state=random_state_string");
    proof {
        assert(url@ =~= "https://accounts.spotify.com/authorize?client_id="@ + client_id@
            + "&response_type=code&redirect_uri="@ + url_encoded(redirect_uri@)
            + "&scope=playlist-modify-public%20user-read-private&state=random_state_string"@);
    }
    url
}

/// The first position at or after `from` holding a colon.
pub open spec fn first_colon_at(s: Seq<char>, from: int) -> Option<int>
    decreases s.len() - from,
{
    if from < 0 || from >= s.len() {
        None
    } else if s[from] == ':' {
        Some(from)
    } else {
        first_colon_at(s, from + 1)
    }
}

proof fn lemma_first_colon_at_props(s: Seq<char>, from: int)
    requires
        0 <= from <= s.len(),
    ensures
        match first_colon_at(s, from) {
            None => forall|i: int| from <= i < s.len() ==> s[i] != ':',
            Some(c) => from <= c < s.len() && s[c] == ':' && forall|i: int|
                from <= i < c ==> s[i] != ':',
        },
    decreases s.len() - from,
{
    if from < s.len() && s[from] != ':' {
        lemma_first_colon_at_props(s, from + 1);
    }
}

/// The third colon-separated segment of the uri, as `split(':')` counts
/// them: the text between the second colon and the third colon or the
/// end.  None when the uri holds fewer than two colons.
pub open spec fn third_segment(s: Seq<char>) -> Option<Seq<char>> {
    match first_colon_at(s, 0) {
        None => None,
        Some(a) => match first_colon_at(s, a + 1) {
            None => None,
            Some(b) => {
                let end = match first_colon_at(s, b + 1) {
                    Some(c) => c,
                    None => s.len() as int,
                };
                Some(s.subrange(b + 1, end))
            },
        },
    }
}

fn find_colon(s: &str, from: usize) -> (r: Option<usize>)
    requires
        from <= s@.len(),
    ensures
        match r {
            Some(c) => first_colon_at(s@, from as int) == Some(c as int) && c < s@.len(),
            None => first_colon_at(s@, from as int) is None,
        },
{
    proof {
        lemma_first_colon_at_props(s@, from as int);
    }
    let n = s.unicode_len();
    let mut i: usize = from;
    while i < n
        invariant
            from <= i <= n,
            n == s@.len(),
            forall|j: int| from <= j < i ==> s@[j] != ':',
        decreases n - i,
    {
        if s.get_char(i) == ':' {
            proof {
                lemma_first_colon_at_props(s@, from as int);
            }
            return Some(i);
        }
        i = i + 1;
    }
    None
}

/// The account identity inside a profile uri: the third colon-separated
/// segment, `alice` in `spotify:user:alice`.  None when the uri has no
/// such segment.
pub fn spotify_user_id(uri: &str) -> (r: Option<String>)
    ensures
        match r {
            Some(id) => third_segment(uri@) == Some(id@),
            None => third_segment(uri@) is None,
        },
{
    let n = uri.unicode_len();
    let a = match find_colon(uri, 0) {
        Some(a) => a,
        None => {
            return None;
        },
    };
    assert(a < n);
    let b = match find_colon(uri, a + 1) {
        Some(b) => b,
        None => {
            return None;
        },
    };
    assert(b < n);
    let end = match find_colon(uri, b + 1) {
        Some(c) => c,
        None => n,
    };
    proof {
        lemma_first_colon_at_props(uri@, b as int + 1);
    }
    let id = uri.substring_char(b + 1, end);
    Some(id.to_owned())
}

} // verus!
