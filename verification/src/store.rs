use vstd::prelude::*;
use vstd::string::StringExecFns;
use crate::model::{
    StoreModel, SongRowModel, RankingRowModel, EntryModel, store_wf, has_user, has_song, find_user,
    find_song, find_song_by_id, find_slot, get_or_create_m, upsert_song_m, set_slot_m,
    apply_entry_m, apply_entries_m, submit_m, song_entry, song_entry_ranked, entry_valid,
    entries_valid, entries_of, submission_fits, user_room, user_songs_m, joined_song,
    lemma_find_user_props,
    lemma_find_song_props, lemma_find_song_by_id_props, lemma_find_slot_props,
};
use crate::invariants::{lemma_get_or_create_wf, lemma_apply_entry_wf, lemma_upsert_song_wf};
use crate::order::spec_ranking_capacity;
use crate::types::{User, UserModel, Song, SongView, StoreError};
use crate::aggregate::{
    AggRow, AggRowModel, rows_view, agg_valid, agg_sorted, agg_rows_from, agg_rows_m,
    is_global_order, sort_rows, count_for, sum_for, lemma_count_sum_bounds, lemma_agg_rows_empty,
};
use vstd::seq_lib::group_to_multiset_ensures;

verus! {

/// Largest number of ranking rows the store holds; beyond it a submission
/// is refused as a storage failure.
pub const RANKING_CAPACITY: usize = 0x4000_0000;

/// One catalog row as stored.
pub struct SongRow {
    pub id: i32,
    pub name: String,
    pub artist: String,
    pub uri: String,
    pub album_cover_url: String,
}

impl View for SongRow {
    type V = SongRowModel;

    open spec fn view(&self) -> SongRowModel {
        SongRowModel {
            id: self.id as int,
            name: self.name@,
            artist: self.artist@,
            uri: self.uri@,
            album_cover_url: self.album_cover_url@,
        }
    }
}

/// One ranking row as stored.
pub struct RankingRow {
    pub user_id: i32,
    pub song_id: i32,
    pub rank: i32,
}

impl View for RankingRow {
    type V = RankingRowModel;

    open spec fn view(&self) -> RankingRowModel {
        RankingRowModel {
            user_id: self.user_id as int,
            song_id: self.song_id as int,
            rank: self.rank as int,
        }
    }
}

/// The ranking store: users, the deduplicated song catalog, and the
/// per-user, per-slot ranking rows, with the two identity counters.
pub struct RankingStore {
    pub(crate) users: Vec<User>,
    pub(crate) songs: Vec<SongRow>,
    pub(crate) rankings: Vec<RankingRow>,
    pub(crate) next_user_id: i32,
    pub(crate) next_song_id: i32,
}

impl View for RankingStore {
    type V = StoreModel;

    closed spec fn view(&self) -> StoreModel {
        StoreModel {
            users: self.users@.map_values(|u: User| u@),
            songs: self.songs@.map_values(|s: SongRow| s@),
            rankings: self.rankings@.map_values(|r: RankingRow| r@),
            next_user_id: self.next_user_id as int,
            next_song_id: self.next_song_id as int,
        }
    }
}

impl RankingStore {
    /// The store invariant holds of the model.
    pub open spec fn wf(&self) -> bool {
        store_wf(self@)
    }

    /// An empty store.
    pub fn new() -> (r: RankingStore)
        ensures
            r.wf(),
            r@.users.len() == 0,
            r@.songs.len() == 0,
            r@.rankings.len() == 0,
            r@.next_user_id == 1,
            r@.next_song_id == 1,
    {
        let r = RankingStore {
            users: Vec::new(),
            songs: Vec::new(),
            rankings: Vec::new(),
            next_user_id: 1,
            next_song_id: 1,
        };
        proof {
            assert(r@.users.len() == 0);
            assert(r@.songs.len() == 0);
            assert(r@.rankings.len() == 0);
        }
        r
    }

    /// How many users the registry holds.
    pub fn user_count(&self) -> (r: usize)
        ensures
            r == self@.users.len(),
    {
        self.users.len()
    }

    /// How many catalog rows exist.
    pub fn song_count(&self) -> (r: usize)
        ensures
            r == self@.songs.len(),
    {
        self.songs.len()
    }

    /// How many ranking rows exist.
    pub fn ranking_count(&self) -> (r: usize)
        ensures
            r == self@.rankings.len(),
    {
        self.rankings.len()
    }

    // -- first-match scans over the three tables --------------------------

    pub(crate) fn find_user_index(&self, name: &String) -> (r: Option<usize>)
        ensures
            match r {
                Some(i) => i < self.users.len() && find_user(self@.users, name@) == Some(
                    i as int,
                ),
                None => find_user(self@.users, name@) is None,
            },
    {
        proof {
            lemma_find_user_props(self@.users, name@);
        }
        let n = self.users.len();
        let mut i: usize = 0;
        while i < n
            invariant
                i <= n,
                n == self.users.len(),
                self@.users.len() == n,
                forall|j: int| 0 <= j < i ==> (#[trigger] self@.users[j]).name != name@,
            decreases n - i,
        {
            assert(self@.users[i as int] == self.users@[i as int]@);
            if self.users[i].name == *name {
                proof {
                    lemma_find_user_props(self@.users, name@);
                }
                return Some(i);
            }
            i = i + 1;
        }
        None
    }

    pub(crate) fn find_song_index(&self, name: &String, artist: &String) -> (r: Option<usize>)
        ensures
            match r {
                Some(i) => i < self.songs.len() && find_song(self@.songs, name@, artist@)
                    == Some(i as int),
                None => find_song(self@.songs, name@, artist@) is None,
            },
    {
        proof {
            lemma_find_song_props(self@.songs, name@, artist@);
        }
        let n = self.songs.len();
        let mut i: usize = 0;
        while i < n
            invariant
                i <= n,
                n == self.songs.len(),
                self@.songs.len() == n,
                forall|j: int|
                    0 <= j < i ==> !((#[trigger] self@.songs[j]).name == name@
                        && self@.songs[j].artist == artist@),
            decreases n - i,
        {
            assert(self@.songs[i as int] == self.songs@[i as int]@);
            if self.songs[i].name == *name && self.songs[i].artist == *artist {
                proof {
                    lemma_find_song_props(self@.songs, name@, artist@);
                }
                return Some(i);
            }
            i = i + 1;
        }
        None
    }

    pub(crate) fn find_song_index_by_id(&self, id: i32) -> (r: Option<usize>)
        ensures
            match r {
                Some(i) => i < self.songs.len() && find_song_by_id(self@.songs, id as int)
                    == Some(i as int),
                None => find_song_by_id(self@.songs, id as int) is None,
            },
    {
        proof {
            lemma_find_song_by_id_props(self@.songs, id as int);
        }
        let n = self.songs.len();
        let mut i: usize = 0;
        while i < n
            invariant
                i <= n,
                n == self.songs.len(),
                self@.songs.len() == n,
                forall|j: int| 0 <= j < i ==> (#[trigger] self@.songs[j]).id != id as int,
            decreases n - i,
        {
            assert(self@.songs[i as int] == self.songs@[i as int]@);
            if self.songs[i].id == id {
                proof {
                    lemma_find_song_by_id_props(self@.songs, id as int);
                }
                return Some(i);
            }
            i = i + 1;
        }
        None
    }

    pub(crate) fn find_slot_index(&self, user_id: i32, rank: i32) -> (r: Option<usize>)
        ensures
            match r {
                Some(i) => i < self.rankings.len() && find_slot(
                    self@.rankings,
                    user_id as int,
                    rank as int,
                ) == Some(i as int),
                None => find_slot(self@.rankings, user_id as int, rank as int) is None,
            },
    {
        proof {
            lemma_find_slot_props(self@.rankings, user_id as int, rank as int);
        }
        let n = self.rankings.len();
        let mut i: usize = 0;
        while i < n
            invariant
                i <= n,
                n == self.rankings.len(),
                self@.rankings.len() == n,
                forall|j: int|
                    0 <= j < i ==> !((#[trigger] self@.rankings[j]).user_id == user_id as int
                        && self@.rankings[j].rank == rank as int),
            decreases n - i,
        {
            assert(self@.rankings[i as int] == self.rankings@[i as int]@);
            if self.rankings[i].user_id == user_id && self.rankings[i].rank == rank {
                proof {
                    lemma_find_slot_props(self@.rankings, user_id as int, rank as int);
                }
                return Some(i);
            }
            i = i + 1;
        }
        None
    }

    pub(crate) fn user_id_exists(&self, id: i32) -> (r: bool)
        ensures
            r == has_user(self@.users, id as int),
    {
        let n = self.users.len();
        let mut i: usize = 0;
        while i < n
            invariant
                i <= n,
                n == self.users.len(),
                self@.users.len() == n,
                forall|j: int| 0 <= j < i ==> (#[trigger] self@.users[j]).id != id as int,
            decreases n - i,
        {
            assert(self@.users[i as int] == self.users@[i as int]@);
            if self.users[i].id == id {
                assert(has_user(self@.users, id as int));
                return true;
            }
            i = i + 1;
        }
        false
    }

    // -- the user registry -------------------------------------------------

    /// Looks a user up by exact external name.
    pub fn get_user(&self, name: &String) -> (r: Option<User>)
        ensures
            match r {
                Some(u) => find_user(self@.users, name@) is Some && u@ == self@.users[find_user(
                    self@.users,
                    name@,
                )->Some_0],
                None => find_user(self@.users, name@) is None,
            },
    {
        match self.find_user_index(name) {
            Some(i) => {
                assert(self@.users[i as int] == self.users@[i as int]@);
                Some(self.users[i].clone())
            },
            None => None,
        }
    }

    /// Whether a user with this external name exists.
    pub fn user_exists(&self, name: &String) -> (r: bool)
        ensures
            r == (find_user(self@.users, name@) is Some),
    {
        match self.find_user_index(name) {
            Some(_) => true,
            None => false,
        }
    }

    /// Inserts a new user and returns the assigned identity; a taken name
    /// is a conflict, refused with nothing changed.
    pub fn insert_user(&mut self, name: &String) -> (r: Result<i32, StoreError>)
        requires
            old(self).wf(),
        ensures
            final(self).wf(),
            r is Err ==> final(self)@ == old(self)@,
            r == Err::<i32, StoreError>(StoreError::ConflictRace) <==> find_user(
                old(self)@.users,
                name@,
            ) is Some,
            r is Ok <==> find_user(old(self)@.users, name@) is None && old(self)@.next_user_id
                < 0x7fff_ffff,
            r is Ok ==> r->Ok_0 as int == old(self)@.next_user_id && final(self)@
                == get_or_create_m(old(self)@, name@).0,
    {
        proof {
            lemma_get_or_create_wf(self@, name@);
        }
        match self.find_user_index(name) {
            Some(_) => Err(StoreError::ConflictRace),
            None => {
                if self.next_user_id == 0x7fff_ffff {
                    Err(StoreError::StorageFailure)
                } else {
                    let id = self.next_user_id;
                    let ghost m0 = self@;
                    self.users.push(User { id, name: name.clone() });
                    self.next_user_id = self.next_user_id + 1;
                    proof {
                        assert(self@.users =~= m0.users.push(UserModel { id: id as int, name: name@ }));
                        assert(self@ =~= get_or_create_m(m0, name@).0);
                    }
                    Ok(id)
                }
            },
        }
    }

    /// Looks the user up by external name, creating it on first sight.
    pub fn get_or_insert_user(&mut self, name: &String) -> (r: Result<User, StoreError>)
        requires
            old(self).wf(),
        ensures
            final(self).wf(),
            r is Err ==> final(self)@ == old(self)@ && r == Err::<User, StoreError>(
                StoreError::StorageFailure,
            ),
            r is Ok <==> (find_user(old(self)@.users, name@) is Some || old(self)@.next_user_id
                < 0x7fff_ffff),
            r is Ok ==> ({
                let (m1, uid) = get_or_create_m(old(self)@, name@);
                &&& final(self)@ == m1
                &&& r->Ok_0@.id == uid
                &&& r->Ok_0@.name == name@
            }),
    {
        proof {
            lemma_get_or_create_wf(self@, name@);
            lemma_find_user_props(self@.users, name@);
        }
        match self.find_user_index(name) {
            Some(i) => {
                assert(self@.users[i as int] == self.users@[i as int]@);
                Ok(self.users[i].clone())
            },
            None => {
                if self.next_user_id == 0x7fff_ffff {
                    Err(StoreError::StorageFailure)
                } else {
                    let id = self.next_user_id;
                    let ghost m0 = self@;
                    self.users.push(User { id, name: name.clone() });
                    self.next_user_id = self.next_user_id + 1;
                    proof {
                        assert(self@.users =~= m0.users.push(UserModel { id: id as int, name: name@ }));
                        assert(self@ =~= get_or_create_m(m0, name@).0);
                    }
                    Ok(User { id, name: name.clone() })
                }
            },
        }
    }

    // -- the write path ----------------------------------------------------

    /// One entry inside a submission: catalog upsert, then ranking upsert.
    /// The caller has already validated the entry and secured capacity.
    pub(crate) fn apply_entry(&mut self, user_id: i32, song: &Song, rank: i32)
        requires
            old(self).wf(),
            has_user(old(self)@.users, user_id as int),
            entry_valid(song_entry_ranked(song@, rank as int)),
            old(self)@.rankings.len() < spec_ranking_capacity(),
            old(self)@.next_song_id < 0x7fff_ffff,
        ensures
            final(self).wf(),
            final(self)@ == apply_entry_m(
                old(self)@,
                user_id as int,
                song_entry_ranked(song@, rank as int),
            ),
    {
        let ghost m0 = self@;
        let ghost e = song_entry_ranked(song@, rank as int);
        proof {
            lemma_apply_entry_wf(m0, user_id as int, e);
            lemma_upsert_song_wf(m0, e);
        }
        let song_id: i32;
        match self.find_song_index(&song.name, &song.artist) {
            Some(i) => {
                song_id = self.songs[i].id;
                let row = SongRow {
                    id: song_id,
                    name: song.name.clone(),
                    artist: song.artist.clone(),
                    uri: song.uri.clone(),
                    album_cover_url: song.album_cover_url.clone(),
                };
                self.songs[i] = row;
                proof {
                    assert(self@.songs =~= m0.songs.update(
                        i as int,
                        SongRowModel {
                            id: m0.songs[i as int].id,
                            name: e.name,
                            artist: e.artist,
                            uri: e.uri,
                            album_cover_url: e.album_cover_url,
                        },
                    ));
                    assert(self@ =~= upsert_song_m(m0, e).0);
                }
            },
            None => {
                song_id = self.next_song_id;
                self.songs.push(
                    SongRow {
                        id: song_id,
                        name: song.name.clone(),
                        artist: song.artist.clone(),
                        uri: song.uri.clone(),
                        album_cover_url: song.album_cover_url.clone(),
                    },
                );
                self.next_song_id = self.next_song_id + 1;
                proof {
                    assert(self@.songs =~= m0.songs.push(
                        SongRowModel {
                            id: m0.next_song_id,
                            name: e.name,
                            artist: e.artist,
                            uri: e.uri,
                            album_cover_url: e.album_cover_url,
                        },
                    ));
                    assert(self@ =~= upsert_song_m(m0, e).0);
                }
            },
        }
        proof {
            assert(song_id as int == upsert_song_m(m0, e).1);
        }
        let ghost m1 = self@;
        match self.find_slot_index(user_id, rank) {
            Some(i) => {
                self.rankings[i] = RankingRow { user_id, song_id, rank };
                proof {
                    assert(self@.rankings =~= m1.rankings.update(
                        i as int,
                        RankingRowModel {
                            user_id: user_id as int,
                            song_id: song_id as int,
                            rank: rank as int,
                        },
                    ));
                    assert(self@ =~= set_slot_m(m1, user_id as int, rank as int, song_id as int));
                }
            },
            None => {
                self.rankings.push(RankingRow { user_id, song_id, rank });
                proof {
                    assert(self@.rankings =~= m1.rankings.push(
                        RankingRowModel {
                            user_id: user_id as int,
                            song_id: song_id as int,
                            rank: rank as int,
                        },
                    ));
                    assert(self@ =~= set_slot_m(m1, user_id as int, rank as int, song_id as int));
                }
            },
        }
    }

    /// Upserts one rank slot for a user, creating or refreshing the song in
    /// the catalog: the write path of a single submission entry.  Fails on
    /// an invalid entry before any write, and on an unknown user or an
    /// exhausted store with nothing changed.
    pub fn insert_or_update_ranking(&mut self, user_id: i32, rank: i32, song: &Song) -> (r: Result<
        (),
        StoreError,
    >)
        requires
            old(self).wf(),
        ensures
            final(self).wf(),
            r is Err ==> final(self)@ == old(self)@,
            r == Err::<(), StoreError>(StoreError::InputInvalid) <==> !entry_valid(
                song_entry_ranked(song@, rank as int),
            ),
            r is Ok <==> entry_valid(song_entry_ranked(song@, rank as int)) && has_user(
                old(self)@.users,
                user_id as int,
            ) && old(self)@.rankings.len() < spec_ranking_capacity() && old(self)@.next_song_id
                < 0x7fff_ffff,
            r == Err::<(), StoreError>(StoreError::StorageFailure) <==> entry_valid(
                song_entry_ranked(song@, rank as int),
            ) && !(has_user(old(self)@.users, user_id as int) && old(self)@.rankings.len()
                < spec_ranking_capacity() && old(self)@.next_song_id < 0x7fff_ffff),
            r is Ok ==> final(self)@ == apply_entry_m(
                old(self)@,
                user_id as int,
                song_entry_ranked(song@, rank as int),
            ),
    {
        if rank < 1 || rank > 10 || song.name.as_str().is_empty()
            || song.artist.as_str().is_empty() {
            return Err(StoreError::InputInvalid);
        }
        if !self.user_id_exists(user_id) {
            return Err(StoreError::StorageFailure);
        }
        if self.rankings.len() >= RANKING_CAPACITY {
            return Err(StoreError::StorageFailure);
        }
        if self.next_song_id >= 0x7fff_ffff {
            return Err(StoreError::StorageFailure);
        }
        self.apply_entry(user_id, song, rank);
        Ok(())
    }

    /// Replaces the slots a submission mentions for this user, one atomic
    /// unit: every entry is validated and capacity secured before the first
    /// write, so a refused submission changes nothing.
    pub fn insert_or_update_songs(&mut self, user_id: i32, songs: &Vec<Song>) -> (r: Result<
        (),
        StoreError,
    >)
        requires
            old(self).wf(),
        ensures
            final(self).wf(),
            r is Err ==> final(self)@ == old(self)@,
            r == Err::<(), StoreError>(StoreError::InputInvalid) <==> !entries_valid(
                entries_of(songs@),
            ),
            r is Ok <==> entries_valid(entries_of(songs@)) && has_user(
                old(self)@.users,
                user_id as int,
            ) && submission_fits(old(self)@, songs@.len() as int),
            r == Err::<(), StoreError>(StoreError::StorageFailure) <==> entries_valid(
                entries_of(songs@),
            ) && !(has_user(old(self)@.users, user_id as int) && submission_fits(
                old(self)@,
                songs@.len() as int,
            )),
            r is Ok ==> final(self)@ == apply_entries_m(
                old(self)@,
                user_id as int,
                entries_of(songs@),
            ),
    {
        let ghost es = entries_of(songs@);
        let n = songs.len();
        let mut i: usize = 0;
        while i < n
            invariant
                i <= n,
                n == songs.len(),
                es == entries_of(songs@),
                es.len() == n,
                *self == *old(self),
                old(self).wf(),
                forall|j: int| 0 <= j < i ==> entry_valid(#[trigger] es[j]),
            decreases n - i,
        {
            let s = &songs[i];
            proof {
                assert(es[i as int] == song_entry(songs@[i as int]@));
            }
            let rank_ok = match s.rank {
                Some(rk) => 1 <= rk && rk <= 10,
                None => false,
            };
            if !(rank_ok && !s.name.as_str().is_empty() && !s.artist.as_str().is_empty()) {
                assert(!entry_valid(es[i as int]));
                return Err(StoreError::InputInvalid);
            }
            assert(entry_valid(es[i as int]));
            i = i + 1;
        }
        assert(entries_valid(es));
        if !self.user_id_exists(user_id) {
            return Err(StoreError::StorageFailure);
        }
        if n > RANKING_CAPACITY {
            assert(!submission_fits(self@, songs@.len() as int));
            return Err(StoreError::StorageFailure);
        }
        if self.rankings.len() > RANKING_CAPACITY - n {
            assert(!submission_fits(self@, songs@.len() as int));
            return Err(StoreError::StorageFailure);
        }
        if (self.next_song_id as u64) + (n as u64) > 0x7fff_ffff {
            assert(!submission_fits(self@, songs@.len() as int));
            return Err(StoreError::StorageFailure);
        }
        assert(submission_fits(self@, songs@.len() as int));
        let ghost m0 = self@;
        proof {
            assert(es.skip(0) =~= es);
        }
        let mut i: usize = 0;
        while i < n
            invariant
                i <= n,
                n == songs.len(),
                es == entries_of(songs@),
                es.len() == n,
                entries_valid(es),
                self.wf(),
                self@.users == m0.users,
                has_user(self@.users, user_id as int),
                self@.rankings.len() + (n - i) <= spec_ranking_capacity(),
                self@.next_song_id + (n - i) <= 0x7fff_ffff,
                apply_entries_m(m0, user_id as int, es) == apply_entries_m(
                    self@,
                    user_id as int,
                    es.skip(i as int),
                ),
            decreases n - i,
        {
            let s = &songs[i];
            proof {
                assert(es[i as int] == song_entry(songs@[i as int]@));
                assert(entry_valid(es[i as int]));
            }
            let rank = match s.rank {
                Some(rk) => rk,
                None => {
                    proof {
                        assert(false);
                    }
                    0
                },
            };
            let ghost mpre = self@;
            proof {
                assert(song_entry_ranked(songs@[i as int]@, rank as int) =~= es[i as int]);
                lemma_apply_entry_wf(mpre, user_id as int, es[i as int]);
            }
            self.apply_entry(user_id, s, rank);
            proof {
                assert(es.skip(i as int)[0] == es[i as int]);
                assert(es.skip(i as int).drop_first() =~= es.skip(i as int + 1));
                assert(apply_entries_m(mpre, user_id as int, es.skip(i as int))
                    == apply_entries_m(self@, user_id as int, es.skip(i as int + 1)));
            }
            i = i + 1;
        }
        proof {
            assert(es.skip(n as int) =~= Seq::<EntryModel>::empty());
            assert(apply_entries_m(self@, user_id as int, es.skip(n as int)) == self@);
        }
        Ok(())
    }

    /// A whole submission from an external identity: resolves or creates
    /// the user and replaces the mentioned slots, all as one atomic unit.
    /// Validation and capacity are settled before the first write.
    pub fn submit_rankings(&mut self, external_name: &String, songs: &Vec<Song>) -> (r: Result<
        (),
        StoreError,
    >)
        requires
            old(self).wf(),
        ensures
            final(self).wf(),
            r is Err ==> final(self)@ == old(self)@,
            r == Err::<(), StoreError>(StoreError::InputInvalid) <==> !entries_valid(
                entries_of(songs@),
            ),
            r is Ok <==> entries_valid(entries_of(songs@)) && user_room(
                old(self)@,
                external_name@,
            ) && submission_fits(old(self)@, songs@.len() as int),
            r == Err::<(), StoreError>(StoreError::StorageFailure) <==> entries_valid(
                entries_of(songs@),
            ) && !(user_room(old(self)@, external_name@) && submission_fits(
                old(self)@,
                songs@.len() as int,
            )),
            r is Ok ==> final(self)@ == submit_m(old(self)@, external_name@, entries_of(songs@)),
    {
        let ghost es = entries_of(songs@);
        let n = songs.len();
        let mut i: usize = 0;
        while i < n
            invariant
                i <= n,
                n == songs.len(),
                es == entries_of(songs@),
                es.len() == n,
                *self == *old(self),
                old(self).wf(),
                forall|j: int| 0 <= j < i ==> entry_valid(#[trigger] es[j]),
            decreases n - i,
        {
            let s = &songs[i];
            proof {
                assert(es[i as int] == song_entry(songs@[i as int]@));
            }
            let rank_ok = match s.rank {
                Some(rk) => 1 <= rk && rk <= 10,
                None => false,
            };
            if !(rank_ok && !s.name.as_str().is_empty() && !s.artist.as_str().is_empty()) {
                assert(!entry_valid(es[i as int]));
                return Err(StoreError::InputInvalid);
            }
            assert(entry_valid(es[i as int]));
            i = i + 1;
        }
        assert(entries_valid(es));
        let known_user = match self.find_user_index(external_name) {
            Some(_) => true,
            None => false,
        };
        if !known_user && self.next_user_id >= 0x7fff_ffff {
            assert(!user_room(self@, external_name@));
            return Err(StoreError::StorageFailure);
        }
        assert(user_room(self@, external_name@));
        if n > RANKING_CAPACITY {
            assert(!submission_fits(self@, songs@.len() as int));
            return Err(StoreError::StorageFailure);
        }
        if self.rankings.len() > RANKING_CAPACITY - n {
            assert(!submission_fits(self@, songs@.len() as int));
            return Err(StoreError::StorageFailure);
        }
        if (self.next_song_id as u64) + (n as u64) > 0x7fff_ffff {
            assert(!submission_fits(self@, songs@.len() as int));
            return Err(StoreError::StorageFailure);
        }
        assert(submission_fits(self@, songs@.len() as int));
        let ghost m0 = self@;
        proof {
            lemma_get_or_create_wf(m0, external_name@);
        }
        let user = match self.get_or_insert_user(external_name) {
            Ok(u) => u,
            Err(_) => {
                proof {
                    assert(false);
                }
                return Err(StoreError::StorageFailure);
            },
        };
        let r2 = self.insert_or_update_songs(user.id, songs);
        match r2 {
            Ok(()) => {
                proof {
                    assert(final(self)@ == submit_m(m0, external_name@, es));
                }
                Ok(())
            },
            Err(_) => {
                proof {
                    assert(false);
                }
                Err(StoreError::StorageFailure)
            },
        }
    }

    // -- the read path -----------------------------------------------------

    /// The ranked songs of the user with this external name, ordered by
    /// rank ascending.  An unknown name is not found, distinct from a
    /// known user with no rankings, which is an empty list.
    pub fn get_songs_for_user_name(&self, name: &String) -> (r: Result<Vec<Song>, StoreError>)
        requires
            self.wf(),
        ensures
            match r {
                Err(e) => e == StoreError::NotFound && find_user(self@.users, name@) is None,
                Ok(v) => find_user(self@.users, name@) is Some && v@.map_values(|s: Song| s@)
                    == user_songs_m(
                    self@,
                    self@.users[find_user(self@.users, name@)->Some_0].id,
                    1,
                ),
            },
    {
        let idx = match self.find_user_index(name) {
            Some(i) => i,
            None => {
                return Err(StoreError::NotFound);
            },
        };
        proof {
            assert(self@.users[idx as int] == self.users@[idx as int]@);
        }
        let user_id = self.users[idx].id;
        let ghost uid = user_id as int;
        let mut out: Vec<Song> = Vec::new();
        proof {
            assert(out@.map_values(|s: Song| s@) + user_songs_m(self@, uid, 1) =~= user_songs_m(
                self@,
                uid,
                1,
            ));
        }
        let mut rank: i32 = 1;
        while rank <= 10
            invariant
                1 <= rank <= 11,
                self.wf(),
                find_user(self@.users, name@) == Some(idx as int),
                idx < self.users.len(),
                uid == self@.users[idx as int].id,
                user_id as int == uid,
                out@.map_values(|s: Song| s@) + user_songs_m(self@, uid, rank as int)
                    == user_songs_m(self@, uid, 1),
            decreases 11 - rank,
        {
            match self.find_slot_index(user_id, rank) {
                Some(ri) => {
                    proof {
                        assert(self@.rankings[ri as int] == self.rankings@[ri as int]@);
                        assert(has_song(self@.songs, self@.rankings[ri as int].song_id));
                    }
                    let song_id = self.rankings[ri].song_id;
                    let ghost row = self@.rankings[ri as int];
                    let si = match self.find_song_index_by_id(song_id) {
                        Some(si) => si,
                        None => {
                            proof {
                                lemma_find_song_by_id_props(self@.songs, song_id as int);
                                assert(false);
                            }
                            return Err(StoreError::NotFound);
                        },
                    };
                    proof {
                        assert(self@.songs[si as int] == self.songs@[si as int]@);
                    }
                    let mut key = self.songs[si].name.clone();
                    key.append(self.songs[si].artist.as_str());
                    let song = Song {
                        key: Some(key),
                        name: self.songs[si].name.clone(),
                        uri: self.songs[si].uri.clone(),
                        artist: self.songs[si].artist.clone(),
                        album_cover_url: self.songs[si].album_cover_url.clone(),
                        rank: Some(self.rankings[ri].rank),
                    };
                    let ghost prev = out@;
                    proof {
                        assert(song@ =~= joined_song(self@, row));
                    }
                    out.push(song);
                    proof {
                        assert(out@.map_values(|s: Song| s@) =~= prev.map_values(|s: Song| s@)
                            .push(joined_song(self@, row)));
                        assert(user_songs_m(self@, uid, rank as int) == seq![
                            joined_song(self@, row),
                        ] + user_songs_m(self@, uid, rank as int + 1));
                        assert(prev.map_values(|s: Song| s@).push(joined_song(self@, row))
                            + user_songs_m(self@, uid, rank as int + 1) =~= prev.map_values(
                            |s: Song| s@,
                        ) + user_songs_m(self@, uid, rank as int));
                    }
                },
                None => {
                    proof {
                        assert(user_songs_m(self@, uid, rank as int) == user_songs_m(
                            self@,
                            uid,
                            rank as int + 1,
                        ));
                    }
                },
            }
            rank = rank + 1;
        }
        proof {
            assert(user_songs_m(self@, uid, 11) =~= Seq::<SongView>::empty());
            assert(out@.map_values(|s: Song| s@) + Seq::<SongView>::empty() =~= out@.map_values(
                |s: Song| s@,
            ));
        }
        Ok(out)
    }
}

impl RankingStore {
    /// Count and rank sum of one song's ranking rows.
    fn count_and_sum(&self, song_id: i32) -> (r: (u64, u64))
        requires
            self.wf(),
        ensures
            r.0 == count_for(self@.rankings, song_id as int),
            r.1 == sum_for(self@.rankings, song_id as int),
    {
        let ghost rs = self@.rankings;
        let n = self.ranking_count();
        let mut count: u64 = 0;
        let mut sum: u64 = 0;
        let mut i: usize = 0;
        proof {
            assert(rs.skip(0) =~= rs);
        }
        while i < n
            invariant
                i <= n,
                self.wf(),
                rs == self@.rankings,
                n == self@.rankings.len(),
                count <= i,
                sum <= 10 * i,
                n <= spec_ranking_capacity(),
                count_for(rs, song_id as int) == count + count_for(
                    rs.skip(i as int),
                    song_id as int,
                ),
                sum_for(rs, song_id as int) == sum + sum_for(rs.skip(i as int), song_id as int),
            decreases n - i,
        {
            proof {
                assert(self@.rankings[i as int] == self.rankings@[i as int]@);
                assert(rs.skip(i as int)[0] == rs[i as int]);
                assert(rs.skip(i as int).drop_first() =~= rs.skip(i as int + 1));
            }
            let row = &self.rankings[i];
            if row.song_id == song_id {
                count = count + 1;
                sum = sum + (row.rank as u64);
            }
            i = i + 1;
        }
        proof {
            assert(rs.skip(n as int) =~= Seq::<RankingRowModel>::empty());
        }
        (count, sum)
    }

    /// The global consensus ordering: the track uri of every song with at
    /// least one ranking, by score descending, ties broken by song name
    /// ascending.  With no rankings stored the result is empty.
    pub fn get_song_rankings(&self) -> (r: Vec<String>)
        requires
            self.wf(),
        ensures
            is_global_order(self@, r.deep_view()),
            self@.rankings.len() == 0 ==> r@.len() == 0,
    {
        let ghost m = self@;
        let mut rows: Vec<AggRow> = Vec::new();
        let nsongs = self.song_count();
        let mut i: usize = 0;
        proof {
            assert(rows_view(rows@) + agg_rows_from(m, 0) =~= agg_rows_m(m));
        }
        while i < nsongs
            invariant
                i <= nsongs,
                self.wf(),
                m == self@,
                nsongs == self@.songs.len(),
                forall|k: int| 0 <= k < rows@.len() ==> agg_valid(#[trigger] rows_view(rows@)[k]),
                rows_view(rows@) + agg_rows_from(m, i as int) == agg_rows_m(m),
            decreases nsongs - i,
        {
            proof {
                assert(self@.songs[i as int] == self.songs@[i as int]@);
            }
            let sid = self.songs[i].id;
            let (count, sum) = self.count_and_sum(sid);
            proof {
                lemma_count_sum_bounds(m.rankings, sid as int);
            }
            if count > 0 {
                let row = AggRow {
                    uri: self.songs[i].uri.clone(),
                    name: self.songs[i].name.clone(),
                    count,
                    sum,
                };
                let ghost prev = rows@;
                proof {
                    assert(row@ =~= agg_rows_from(m, i as int)[0]);
                }
                rows.push(row);
                proof {
                    assert(rows_view(rows@) =~= rows_view(prev).push(
                        agg_rows_from(m, i as int)[0],
                    ));
                    assert(rows_view(prev).push(agg_rows_from(m, i as int)[0]) + agg_rows_from(
                        m,
                        i as int + 1,
                    ) =~= rows_view(prev) + agg_rows_from(m, i as int));
                }
            } else {
                proof {
                    assert(agg_rows_from(m, i as int) == agg_rows_from(m, i as int + 1));
                }
            }
            i = i + 1;
        }
        proof {
            assert(agg_rows_from(m, nsongs as int) =~= Seq::<AggRowModel>::empty());
            assert(rows_view(rows@) + Seq::<AggRowModel>::empty() =~= rows_view(rows@));
            assert(rows_view(rows@) == agg_rows_m(m));
        }
        sort_rows(&mut rows);
        let ghost sorted = rows_view(rows@);
        let mut out: Vec<String> = Vec::new();
        let nrows = rows.len();
        let mut j: usize = 0;
        while j < nrows
            invariant
                j <= nrows,
                nrows == rows@.len(),
                sorted == rows_view(rows@),
                out@.len() == j,
                forall|k: int| 0 <= k < j ==> out@[k]@ == sorted[k].uri,
            decreases nrows - j,
        {
            proof {
                assert(rows_view(rows@)[j as int] == rows@[j as int]@);
            }
            out.push(rows[j].uri.clone());
            j = j + 1;
        }
        proof {
            assert(out.deep_view() =~= sorted.map_values(|a: AggRowModel| a.uri));
            assert(sorted.to_multiset() == agg_rows_m(m).to_multiset());
            assert(agg_sorted(sorted));
            assert(is_global_order(m, out.deep_view()));
            if m.rankings.len() == 0 {
                lemma_agg_rows_empty(m, 0);
                broadcast use group_to_multiset_ensures;

                assert(agg_rows_m(m).len() == 0);
                assert(sorted.len() == agg_rows_m(m).len());
            }
        }
        out
    }
}

} // verus!
