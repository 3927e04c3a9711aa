use vstd::prelude::*;

verus! {

// ---------------------------------------------------------------------------
// Values exchanged with the callers: users, songs, submissions, and the
// wire-level bodies the surrounding application sends and receives.
// ---------------------------------------------------------------------------

/// A user: an opaque external identity string mapped to a stable numeric
/// identity assigned on first sight.
#[derive(Debug)]
pub struct User {
    pub id: i32,
    pub name: String,
}

/// Ghost image of a `User`.
#[verifier::ext_equal]
pub struct UserModel {
    pub id: int,
    pub name: Seq<char>,
}

impl View for User {
    type V = UserModel;

    open spec fn view(&self) -> UserModel {
        UserModel { id: self.id as int, name: self.name@ }
    }
}

impl Clone for User {
    fn clone(&self) -> (r: Self)
        ensures
            r == *self,
    {
        User { id: self.id, name: self.name.clone() }
    }
}

impl PartialEq for User {
    fn eq(&self, o: &User) -> (r: bool) {
        self.id == o.id && self.name == o.name
    }
}

impl vstd::std_specs::cmp::PartialEqSpecImpl for User {
    open spec fn obeys_eq_spec() -> bool {
        true
    }

    open spec fn eq_spec(&self, o: &User) -> bool {
        self.id == o.id && self.name@ == o.name@
    }
}

/// A song as submitted and returned: catalog identity is the pair
/// (name, artist); the rank slot rides along on submissions and reads.
#[derive(Debug)]
pub struct Song {
    pub key: Option<String>,
    pub name: String,
    pub uri: String,
    pub artist: String,
    pub album_cover_url: String,
    pub rank: Option<i32>,
}

/// Ghost image of a `Song`.
#[verifier::ext_equal]
pub struct SongView {
    pub key: Option<Seq<char>>,
    pub name: Seq<char>,
    pub uri: Seq<char>,
    pub artist: Seq<char>,
    pub album_cover_url: Seq<char>,
    pub rank: Option<int>,
}

impl View for Song {
    type V = SongView;

    open spec fn view(&self) -> SongView {
        SongView {
            key: match self.key {
                Some(k) => Some(k@),
                None => None,
            },
            name: self.name@,
            uri: self.uri@,
            artist: self.artist@,
            album_cover_url: self.album_cover_url@,
            rank: match self.rank {
                Some(r) => Some(r as int),
                None => None,
            },
        }
    }
}

impl Clone for Song {
    fn clone(&self) -> (r: Self)
        ensures
            r@ == self@,
    {
        Song {
            key: match &self.key {
                Some(k) => Some(k.clone()),
                None => None,
            },
            name: self.name.clone(),
            uri: self.uri.clone(),
            artist: self.artist.clone(),
            album_cover_url: self.album_cover_url.clone(),
            rank: match &self.rank {
                Some(r) => Some(*r),
                None => None,
            },
        }
    }
}

impl PartialEq for Song {
    fn eq(&self, o: &Song) -> (r: bool) {
        let keys_eq = match (&self.key, &o.key) {
            (Some(a), Some(b)) => *a == *b,
            (None, None) => true,
            _ => false,
        };
        let ranks_eq = match (&self.rank, &o.rank) {
            (Some(a), Some(b)) => *a == *b,
            (None, None) => true,
            _ => false,
        };
        let r = keys_eq && ranks_eq && self.name == o.name && self.uri == o.uri && self.artist
            == o.artist && self.album_cover_url == o.album_cover_url;
        proof {
            if r {
                assert(self@ =~= o@);
            }
        }
        r
    }
}

impl vstd::std_specs::cmp::PartialEqSpecImpl for Song {
    open spec fn obeys_eq_spec() -> bool {
        true
    }

    open spec fn eq_spec(&self, o: &Song) -> bool {
        self@ == o@
    }
}

/// Why a store operation failed.
#[derive(Clone, Copy, Debug, PartialEq, Eq, Structural)]
pub enum StoreError {
    /// The user or ranking set looked up does not exist; distinct from an
    /// empty-but-existing result.
    NotFound,
    /// A duplicate-identity insertion: the unique key already has a row.
    ConflictRace,
    /// The store cannot take the write; nothing of the request is applied.
    StorageFailure,
    /// A submission with a rank outside 1..10 or a song missing a required
    /// identity field; rejected before any write.
    InputInvalid,
}

// ---------------------------------------------------------------------------
// Wire bodies exchanged with the external music service.  The surrounding
// application serializes them; the library only carries the values.
// ---------------------------------------------------------------------------

/// Token-exchange response: the bearer token for later calls.
pub struct AccessTokenResponse {
    pub access_token: String,
}

/// Query parameters of a track search: free text and the slot the selection
/// is intended for.
pub struct SearchSongsQuery {
    pub track: Option<String>,
    pub rank: Option<i32>,
}

/// An error surfaced to the caller of a route.
pub struct ErrorResponse {
    pub error: String,
}

/// Identity of a playlist created on the external service.
pub struct CreatePlaylistId {
    pub id: String,
}

/// Body of a playlist-creation request.
pub struct CreatePlaylistBody {
    pub name: String,
    pub description: String,
    pub public: bool,
}

/// Body of a request adding tracks to a playlist.
pub struct AddSongsToPlaylistBody {
    pub uris: Vec<String>,
    pub position: i32,
}

} // verus!
