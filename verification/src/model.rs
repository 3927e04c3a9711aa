use vstd::prelude::*;
use crate::order::spec_ranking_capacity;
use crate::types::{Song, SongView, UserModel};

verus! {

// ---------------------------------------------------------------------------
// The ghost model of the store: three tables and two identity counters.
// Every contract of the executable store speaks of this model.
// ---------------------------------------------------------------------------

/// One catalog row.  Catalog identity is the pair (name, artist); the
/// metadata fields carry the most recently seen values.
#[verifier::ext_equal]
pub struct SongRowModel {
    pub id: int,
    pub name: Seq<char>,
    pub artist: Seq<char>,
    pub uri: Seq<char>,
    pub album_cover_url: Seq<char>,
}

/// One ranking row: the song a user put at a rank slot.
#[verifier::ext_equal]
pub struct RankingRowModel {
    pub user_id: int,
    pub song_id: int,
    pub rank: int,
}

/// One entry of a submission, already shaped for the store.
#[verifier::ext_equal]
pub struct EntryModel {
    pub name: Seq<char>,
    pub artist: Seq<char>,
    pub uri: Seq<char>,
    pub album_cover_url: Seq<char>,
    pub rank: int,
}

/// The whole store.
#[verifier::ext_equal]
pub struct StoreModel {
    pub users: Seq<UserModel>,
    pub songs: Seq<SongRowModel>,
    pub rankings: Seq<RankingRowModel>,
    pub next_user_id: int,
    pub next_song_id: int,
}

// ---------------------------------------------------------------------------
// First-match lookups.  Each returns the least index whose row matches.
// ---------------------------------------------------------------------------

/// Index of the user with this external name.
pub open spec fn find_user(users: Seq<UserModel>, name: Seq<char>) -> Option<int>
    decreases users.len(),
{
    if users.len() == 0 {
        None
    } else if users[0].name == name {
        Some(0int)
    } else {
        match find_user(users.drop_first(), name) {
            None => None,
            Some(i) => Some(i + 1),
        }
    }
}

/// Index of the catalog row with this (name, artist) pair.
pub open spec fn find_song(songs: Seq<SongRowModel>, name: Seq<char>, artist: Seq<char>) -> Option<
    int,
>
    decreases songs.len(),
{
    if songs.len() == 0 {
        None
    } else if songs[0].name == name && songs[0].artist == artist {
        Some(0int)
    } else {
        match find_song(songs.drop_first(), name, artist) {
            None => None,
            Some(i) => Some(i + 1),
        }
    }
}

/// Index of the catalog row with this identity.
pub open spec fn find_song_by_id(songs: Seq<SongRowModel>, id: int) -> Option<int>
    decreases songs.len(),
{
    if songs.len() == 0 {
        None
    } else if songs[0].id == id {
        Some(0int)
    } else {
        match find_song_by_id(songs.drop_first(), id) {
            None => None,
            Some(i) => Some(i + 1),
        }
    }
}

/// Index of the ranking row occupying this user's rank slot.
pub open spec fn find_slot(rankings: Seq<RankingRowModel>, user_id: int, rank: int) -> Option<int>
    decreases rankings.len(),
{
    if rankings.len() == 0 {
        None
    } else if rankings[0].user_id == user_id && rankings[0].rank == rank {
        Some(0int)
    } else {
        match find_slot(rankings.drop_first(), user_id, rank) {
            None => None,
            Some(i) => Some(i + 1),
        }
    }
}

pub proof fn lemma_find_user_props(users: Seq<UserModel>, name: Seq<char>)
    ensures
        match find_user(users, name) {
            None => forall|i: int| 0 <= i < users.len() ==> (#[trigger] users[i]).name != name,
            Some(i) => 0 <= i < users.len() && users[i].name == name && forall|j: int|
                0 <= j < i ==> (#[trigger] users[j]).name != name,
        },
    decreases users.len(),
{
    if users.len() != 0 && users[0].name != name {
        lemma_find_user_props(users.drop_first(), name);
        match find_user(users.drop_first(), name) {
            None => {
                assert forall|i: int| 0 <= i < users.len() implies (#[trigger] users[i]).name
                    != name by {
                    if i >= 1 {
                        assert(users.drop_first()[i - 1] == users[i]);
                    }
                }
            },
            Some(k) => {
                assert(users.drop_first()[k] == users[k + 1]);
                assert forall|j: int| 0 <= j < k + 1 implies (#[trigger] users[j]).name != name by {
                    if j >= 1 {
                        assert(users.drop_first()[j - 1] == users[j]);
                    }
                }
            },
        }
    }
}

pub proof fn lemma_find_song_props(songs: Seq<SongRowModel>, name: Seq<char>, artist: Seq<char>)
    ensures
        match find_song(songs, name, artist) {
            None => forall|i: int|
                0 <= i < songs.len() ==> !((#[trigger] songs[i]).name == name && songs[i].artist
                    == artist),
            Some(i) => 0 <= i < songs.len() && songs[i].name == name && songs[i].artist == artist
                && forall|j: int|
                0 <= j < i ==> !((#[trigger] songs[j]).name == name && songs[j].artist == artist),
        },
    decreases songs.len(),
{
    if songs.len() != 0 && !(songs[0].name == name && songs[0].artist == artist) {
        lemma_find_song_props(songs.drop_first(), name, artist);
        match find_song(songs.drop_first(), name, artist) {
            None => {
                assert forall|i: int| 0 <= i < songs.len() implies !((#[trigger] songs[i]).name
                    == name && songs[i].artist == artist) by {
                    if i >= 1 {
                        assert(songs.drop_first()[i - 1] == songs[i]);
                    }
                }
            },
            Some(k) => {
                assert(songs.drop_first()[k] == songs[k + 1]);
                assert forall|j: int| 0 <= j < k + 1 implies !((#[trigger] songs[j]).name == name
                    && songs[j].artist == artist) by {
                    if j >= 1 {
                        assert(songs.drop_first()[j - 1] == songs[j]);
                    }
                }
            },
        }
    }
}

pub proof fn lemma_find_song_by_id_props(songs: Seq<SongRowModel>, id: int)
    ensures
        match find_song_by_id(songs, id) {
            None => forall|i: int| 0 <= i < songs.len() ==> (#[trigger] songs[i]).id != id,
            Some(i) => 0 <= i < songs.len() && songs[i].id == id && forall|j: int|
                0 <= j < i ==> (#[trigger] songs[j]).id != id,
        },
    decreases songs.len(),
{
    if songs.len() != 0 && songs[0].id != id {
        lemma_find_song_by_id_props(songs.drop_first(), id);
        match find_song_by_id(songs.drop_first(), id) {
            None => {
                assert forall|i: int| 0 <= i < songs.len() implies (#[trigger] songs[i]).id
                    != id by {
                    if i >= 1 {
                        assert(songs.drop_first()[i - 1] == songs[i]);
                    }
                }
            },
            Some(k) => {
                assert(songs.drop_first()[k] == songs[k + 1]);
                assert forall|j: int| 0 <= j < k + 1 implies (#[trigger] songs[j]).id != id by {
                    if j >= 1 {
                        assert(songs.drop_first()[j - 1] == songs[j]);
                    }
                }
            },
        }
    }
}

pub proof fn lemma_find_slot_props(rankings: Seq<RankingRowModel>, user_id: int, rank: int)
    ensures
        match find_slot(rankings, user_id, rank) {
            None => forall|i: int|
                0 <= i < rankings.len() ==> !((#[trigger] rankings[i]).user_id == user_id
                    && rankings[i].rank == rank),
            Some(i) => 0 <= i < rankings.len() && rankings[i].user_id == user_id
                && rankings[i].rank == rank && forall|j: int|
                0 <= j < i ==> !((#[trigger] rankings[j]).user_id == user_id && rankings[j].rank
                    == rank),
        },
    decreases rankings.len(),
{
    if rankings.len() != 0 && !(rankings[0].user_id == user_id && rankings[0].rank == rank) {
        lemma_find_slot_props(rankings.drop_first(), user_id, rank);
        match find_slot(rankings.drop_first(), user_id, rank) {
            None => {
                assert forall|i: int| 0 <= i < rankings.len() implies !((
                #[trigger] rankings[i]).user_id == user_id && rankings[i].rank == rank) by {
                    if i >= 1 {
                        assert(rankings.drop_first()[i - 1] == rankings[i]);
                    }
                }
            },
            Some(k) => {
                assert(rankings.drop_first()[k] == rankings[k + 1]);
                assert forall|j: int| 0 <= j < k + 1 implies !((#[trigger] rankings[j]).user_id
                    == user_id && rankings[j].rank == rank) by {
                    if j >= 1 {
                        assert(rankings.drop_first()[j - 1] == rankings[j]);
                    }
                }
            },
        }
    }
}

/// Some user row carries this identity.
pub open spec fn has_user(users: Seq<UserModel>, id: int) -> bool {
    exists|i: int| 0 <= i < users.len() && (#[trigger] users[i]).id == id
}

/// Some catalog row carries this identity.
pub open spec fn has_song(songs: Seq<SongRowModel>, id: int) -> bool {
    exists|i: int| 0 <= i < songs.len() && (#[trigger] songs[i]).id == id
}

// ---------------------------------------------------------------------------
// Well-formedness: the invariants of the store.
// ---------------------------------------------------------------------------

pub open spec fn users_wf(m: StoreModel) -> bool {
    &&& forall|i: int, j: int|
        #![trigger m.users[i].id, m.users[j].id]
        0 <= i < j < m.users.len() ==> m.users[i].id != m.users[j].id
    &&& forall|i: int, j: int|
        #![trigger m.users[i].name, m.users[j].name]
        0 <= i < j < m.users.len() ==> m.users[i].name != m.users[j].name
    &&& forall|i: int| 0 <= i < m.users.len() ==> 1 <= (#[trigger] m.users[i]).id < m.next_user_id
}

pub open spec fn songs_wf(m: StoreModel) -> bool {
    &&& forall|i: int, j: int|
        #![trigger m.songs[i].id, m.songs[j].id]
        0 <= i < j < m.songs.len() ==> m.songs[i].id != m.songs[j].id
    &&& forall|i: int, j: int|
        #![trigger m.songs[i], m.songs[j]]
        0 <= i < j < m.songs.len() ==> !(m.songs[i].name == m.songs[j].name && m.songs[i].artist
            == m.songs[j].artist)
    &&& forall|i: int| 0 <= i < m.songs.len() ==> 1 <= (#[trigger] m.songs[i]).id < m.next_song_id
}

pub open spec fn rankings_wf(m: StoreModel) -> bool {
    &&& forall|i: int|
        0 <= i < m.rankings.len() ==> 1 <= (#[trigger] m.rankings[i]).rank <= 10
    &&& forall|i: int|
        0 <= i < m.rankings.len() ==> has_user(m.users, (#[trigger] m.rankings[i]).user_id)
    &&& forall|i: int|
        0 <= i < m.rankings.len() ==> has_song(m.songs, (#[trigger] m.rankings[i]).song_id)
    &&& forall|i: int, j: int|
        #![trigger m.rankings[i], m.rankings[j]]
        0 <= i < j < m.rankings.len() ==> !(m.rankings[i].user_id == m.rankings[j].user_id
            && m.rankings[i].rank == m.rankings[j].rank)
    &&& m.rankings.len() <= spec_ranking_capacity()
}

/// The store invariant: identities unique and below the counters, the
/// catalog deduplicated by (name, artist), at most one ranking row per
/// (user, rank), every ranking row referencing existing rows, and the
/// ranking table within capacity.
pub open spec fn store_wf(m: StoreModel) -> bool {
    &&& users_wf(m)
    &&& songs_wf(m)
    &&& rankings_wf(m)
    &&& m.next_user_id >= 1
    &&& m.next_song_id >= 1
}

// ---------------------------------------------------------------------------
// Transitions.
// ---------------------------------------------------------------------------

/// Catalog upsert: look up by (name, artist); insert a fresh row or
/// overwrite the metadata of the existing one.  Returns the new store and
/// the song identity.
pub open spec fn upsert_song_m(m: StoreModel, e: EntryModel) -> (StoreModel, int) {
    match find_song(m.songs, e.name, e.artist) {
        Some(i) => (
            StoreModel {
                songs: m.songs.update(
                    i,
                    SongRowModel {
                        id: m.songs[i].id,
                        name: e.name,
                        artist: e.artist,
                        uri: e.uri,
                        album_cover_url: e.album_cover_url,
                    },
                ),
                ..m
            },
            m.songs[i].id,
        ),
        None => (
            StoreModel {
                songs: m.songs.push(
                    SongRowModel {
                        id: m.next_song_id,
                        name: e.name,
                        artist: e.artist,
                        uri: e.uri,
                        album_cover_url: e.album_cover_url,
                    },
                ),
                next_song_id: m.next_song_id + 1,
                ..m
            },
            m.next_song_id,
        ),
    }
}

/// Ranking upsert: set the song occupying `(user_id, rank)`, overwriting
/// the slot if it is taken.
pub open spec fn set_slot_m(m: StoreModel, user_id: int, rank: int, song_id: int) -> StoreModel {
    let row = RankingRowModel { user_id, song_id, rank };
    match find_slot(m.rankings, user_id, rank) {
        Some(i) => StoreModel { rankings: m.rankings.update(i, row), ..m },
        None => StoreModel { rankings: m.rankings.push(row), ..m },
    }
}

/// One submission entry: catalog upsert, then ranking upsert.
pub open spec fn apply_entry_m(m: StoreModel, user_id: int, e: EntryModel) -> StoreModel {
    let (m1, song_id) = upsert_song_m(m, e);
    set_slot_m(m1, user_id, e.rank, song_id)
}

/// A whole submission, applied in order.
pub open spec fn apply_entries_m(m: StoreModel, user_id: int, es: Seq<EntryModel>) -> StoreModel
    decreases es.len(),
{
    if es.len() == 0 {
        m
    } else {
        apply_entries_m(apply_entry_m(m, user_id, es[0]), user_id, es.drop_first())
    }
}

/// User registry: look up by external name, creating the user on first
/// sight.  Returns the new store and the user identity.
pub open spec fn get_or_create_m(m: StoreModel, name: Seq<char>) -> (StoreModel, int) {
    match find_user(m.users, name) {
        Some(i) => (m, m.users[i].id),
        None => (
            StoreModel {
                users: m.users.push(UserModel { id: m.next_user_id, name }),
                next_user_id: m.next_user_id + 1,
                ..m
            },
            m.next_user_id,
        ),
    }
}

/// A full submission: resolve the user, then apply every entry.
pub open spec fn submit_m(m: StoreModel, name: Seq<char>, es: Seq<EntryModel>) -> StoreModel {
    let (m1, user_id) = get_or_create_m(m, name);
    apply_entries_m(m1, user_id, es)
}

// ---------------------------------------------------------------------------
// Submissions: validity and capacity.
// ---------------------------------------------------------------------------

/// A valid entry: a rank slot between 1 and 10 and both identity fields
/// present.
pub open spec fn entry_valid(e: EntryModel) -> bool {
    &&& 1 <= e.rank <= 10
    &&& e.name.len() > 0
    &&& e.artist.len() > 0
}

pub open spec fn entries_valid(es: Seq<EntryModel>) -> bool {
    forall|i: int| 0 <= i < es.len() ==> entry_valid(#[trigger] es[i])
}

/// The entry a submitted song stands for under a given rank slot.
pub open spec fn song_entry_ranked(s: SongView, rank: int) -> EntryModel {
    EntryModel {
        name: s.name,
        artist: s.artist,
        uri: s.uri,
        album_cover_url: s.album_cover_url,
        rank: rank,
    }
}

/// The entry a submitted song stands for; an absent rank becomes the
/// invalid slot 0.
pub open spec fn song_entry(s: SongView) -> EntryModel {
    song_entry_ranked(
        s,
        match s.rank {
            Some(r) => r,
            None => 0,
        },
    )
}

pub open spec fn entries_of(songs: Seq<Song>) -> Seq<EntryModel> {
    songs.map_values(|s: Song| song_entry(s@))
}

/// The store can surely take a submission of `n` entries: enough song
/// identities and ranking capacity remain even if every entry inserts.
pub open spec fn submission_fits(m: StoreModel, n: int) -> bool {
    &&& m.next_song_id + n <= 0x7fff_ffff
    &&& m.rankings.len() + n <= spec_ranking_capacity()
}

/// The catalog row a ranking row points at, joined into the returned
/// song value: the key is name and artist concatenated, the rank rides
/// along.
pub open spec fn joined_song(m: StoreModel, row: RankingRowModel) -> SongView {
    let s = m.songs[find_song_by_id(m.songs, row.song_id)->Some_0];
    SongView {
        key: Some(s.name + s.artist),
        name: s.name,
        uri: s.uri,
        artist: s.artist,
        album_cover_url: s.album_cover_url,
        rank: Some(row.rank),
    }
}

/// A user's ranked songs from slot `rank` upward, ordered by rank
/// ascending; empty slots are skipped.
pub open spec fn user_songs_m(m: StoreModel, user_id: int, rank: int) -> Seq<SongView>
    decreases 11 - rank,
{
    if rank > 10 {
        Seq::empty()
    } else {
        let rest = user_songs_m(m, user_id, rank + 1);
        match find_slot(m.rankings, user_id, rank) {
            None => rest,
            Some(i) => seq![joined_song(m, m.rankings[i])] + rest,
        }
    }
}

/// The user of this submission can be resolved: it exists, or an identity
/// remains for it.
pub open spec fn user_room(m: StoreModel, name: Seq<char>) -> bool {
    find_user(m.users, name) is Some || m.next_user_id < 0x7fff_ffff
}

} // verus!
