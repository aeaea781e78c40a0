use vstd::prelude::*;

use crate::rooms::{GameRoom, PlayerState};
use crate::strmap::StrMap;
use crate::trusted;

verus! {

use crate::rooms::{
    player_ids,
    distinct_player_ids,
    without_player,
    lemma_without_player_props,
    players_like,
    room_like,
    clone_room,
    clone_players,
};
use crate::seqs::{views_of, excluding, lemma_excluding_skip};

/// Why a join was refused.
#[derive(Clone, Copy, PartialEq, Eq, Structural, Debug)]
pub enum JoinError {
    RoomNotFound,
    RoomFull,
    AlreadyInRoom,
}

/// The room registry: the authoritative room map, the player -> room reverse
/// index kept consistent with it, and the transport's connection map.
pub struct MultiplayerServer {
    rooms: StrMap<GameRoom>,
    player_to_room: StrMap<String>,
    connections: StrMap<String>,
}

/// A room standing in the registry under a key: it carries that key as its
/// id, respects its capacity, and lists no player twice.
pub open spec fn room_ok(room: GameRoom, rid: Seq<char>) -> bool {
    &&& room.room_id@ == rid
    &&& room.players@.len() <= room.max_players
    &&& distinct_player_ids(room.players@)
    &&& room.game_state.wf()
}

impl MultiplayerServer {
    pub closed spec fn rooms_map(&self) -> Map<Seq<char>, GameRoom> {
        self.rooms@
    }

    pub closed spec fn index_map(&self) -> Map<Seq<char>, String> {
        self.player_to_room@
    }

    pub closed spec fn connections_map(&self) -> Map<Seq<char>, String> {
        self.connections@
    }

    /// The registry invariant: every room is well formed under its key, every
    /// in-room player is indexed back to that room, and every index entry
    /// points at a room that holds the player.
    pub closed spec fn wf(&self) -> bool {
        &&& self.rooms.wf()
        &&& self.player_to_room.wf()
        &&& self.connections.wf()
        &&& forall|rid: Seq<char>| #[trigger]
            self.rooms@.contains_key(rid) ==> room_ok(self.rooms@[rid], rid)
        &&& forall|rid: Seq<char>, i: int|
            self.rooms@.contains_key(rid) && 0 <= i < self.rooms@[rid].players@.len() ==> {
                let pid = (#[trigger] self.rooms@[rid].players@[i]).player_id@;
                &&& self.player_to_room@.contains_key(pid)
                &&& self.player_to_room@[pid]@ == rid
            }
        &&& forall|pid: Seq<char>| #[trigger]
            self.player_to_room@.contains_key(pid) ==> {
                let rid = self.player_to_room@[pid]@;
                &&& self.rooms@.contains_key(rid)
                &&& player_ids(self.rooms@[rid].players@).contains(pid)
            }
    }

    /// No room ever holds more players than its capacity.
    pub proof fn lemma_capacity_respected(&self, rid: Seq<char>)
        requires
            self.wf(),
            self.rooms_map().contains_key(rid),
        ensures
            self.rooms_map()[rid].players@.len() <= self.rooms_map()[rid].max_players,
    {
    }

    /// Every player of every room is indexed back to exactly that room.
    pub proof fn lemma_reverse_index_consistent(&self, rid: Seq<char>, pid: Seq<char>)
        requires
            self.wf(),
            self.rooms_map().contains_key(rid),
            player_ids(self.rooms_map()[rid].players@).contains(pid),
        ensures
            self.index_map().contains_key(pid),
            self.index_map()[pid]@ == rid,
    {
        let players = self.rooms_map()[rid].players@;
        let i = choose|i: int| 0 <= i < players.len() && player_ids(players)[i] == pid;
        assert(players[i].player_id@ == pid);
    }

    /// Every reverse-index entry points at an existing room that lists the
    /// player: the converse direction of `lemma_reverse_index_consistent`.
    pub proof fn lemma_index_entry_consistent(&self, pid: Seq<char>)
        requires
            self.wf(),
            self.index_map().contains_key(pid),
        ensures
            self.rooms_map().contains_key(self.index_map()[pid]@),
            player_ids(self.rooms_map()[self.index_map()[pid]@].players@).contains(pid),
    {
    }

    /// No player id appears in two rooms at once.
    pub proof fn lemma_no_player_in_two_rooms(
        &self,
        r1: Seq<char>,
        r2: Seq<char>,
        pid: Seq<char>,
    )
        requires
            self.wf(),
            self.rooms_map().contains_key(r1),
            self.rooms_map().contains_key(r2),
            player_ids(self.rooms_map()[r1].players@).contains(pid),
            player_ids(self.rooms_map()[r2].players@).contains(pid),
        ensures
            r1 == r2,
    {
        self.lemma_reverse_index_consistent(r1, pid);
        self.lemma_reverse_index_consistent(r2, pid);
    }

    pub fn new() -> (r: Self)
        ensures
            r.wf(),
            r.rooms_map() == Map::<Seq<char>, GameRoom>::empty(),
            r.index_map() == Map::<Seq<char>, String>::empty(),
            r.connections_map() == Map::<Seq<char>, String>::empty(),
    {
        MultiplayerServer {
            rooms: StrMap::new(),
            player_to_room: StrMap::new(),
            connections: StrMap::new(),
        }
    }

    /// Open a fresh public room with no players. The host is not placed into
    /// the room; a join is a separate step. In the never-observed event that
    /// the minted id is already taken, the registry is left unchanged and the
    /// existing id is returned.
    pub fn create_room(&mut self, game_id: String, host_id: String, max_players: usize) -> (r:
        String)
        requires
            old(self).wf(),
        ensures
            final(self).wf(),
            r@.len() > 0,
            final(self).index_map() == old(self).index_map(),
            final(self).connections_map() == old(self).connections_map(),
            old(self).rooms_map().contains_key(r@) ==> *final(self) == *old(self),
            !old(self).rooms_map().contains_key(r@) ==> ({
                let room = final(self).rooms_map()[r@];
                &&& final(self).rooms_map() == old(self).rooms_map().insert(r@, room)
                &&& room.room_id@ == r@
                &&& room.game_id == game_id
                &&& room.host_id == host_id
                &&& room.max_players == max_players
                &&& room.players@.len() == 0
                &&& room.is_public
                &&& room.game_state@ == Map::<Seq<char>, String>::empty()
            }),
    {
        let room_id = trusted::mint_id("room");
        if self.rooms.contains_key(room_id.as_str()) {
            return room_id;
        }
        let ghost pre = *self;
        let room = GameRoom::new(room_id.clone(), game_id, host_id, max_players);
        self.rooms.insert(room_id.clone(), room);
        proof {
            let rid = room_id@;
            assert forall|rid2: Seq<char>| #[trigger]
                self.rooms@.contains_key(rid2) implies room_ok(self.rooms@[rid2], rid2) by {
                if rid2 != rid {
                    assert(pre.rooms@.contains_key(rid2));
                }
            }
            assert forall|pid: Seq<char>| #[trigger]
                self.player_to_room@.contains_key(pid) implies {
                let rid2 = self.player_to_room@[pid]@;
                &&& self.rooms@.contains_key(rid2)
                &&& player_ids(self.rooms@[rid2].players@).contains(pid)
            } by {
                let rid2 = self.player_to_room@[pid]@;
                assert(pre.rooms@.contains_key(rid2));
                assert(rid2 != rid);
            }
        }
        room_id
    }

    /// Place a player record into a room, atomically with the capacity and
    /// single-room checks.
    pub fn join_room(&mut self, room_id: &str, player: PlayerState) -> (r: Result<(), JoinError>)
        requires
            old(self).wf(),
        ensures
            final(self).wf(),
            final(self).connections_map() == old(self).connections_map(),
            match r {
                Ok(_) => ({
                    let or = old(self).rooms_map()[room_id@];
                    let nr = final(self).rooms_map()[room_id@];
                    &&& old(self).rooms_map().contains_key(room_id@)
                    &&& or.players@.len() < or.max_players
                    &&& !old(self).index_map().contains_key(player.player_id@)
                    &&& final(self).rooms_map() == old(self).rooms_map().insert(room_id@, nr)
                    &&& nr.players@ == or.players@.push(player)
                    &&& nr.room_id == or.room_id
                    &&& nr.game_id == or.game_id
                    &&& nr.host_id == or.host_id
                    &&& nr.max_players == or.max_players
                    &&& nr.created_at == or.created_at
                    &&& nr.is_public == or.is_public
                    &&& nr.game_state == or.game_state
                    &&& final(self).index_map() == old(self).index_map().insert(
                        player.player_id@,
                        final(self).index_map()[player.player_id@],
                    )
                    &&& final(self).index_map()[player.player_id@]@ == room_id@
                }),
                Err(e) => *final(self) == *old(self) && match e {
                    JoinError::RoomNotFound => !old(self).rooms_map().contains_key(room_id@),
                    JoinError::RoomFull => old(self).rooms_map().contains_key(room_id@) && ({
                        let or = old(self).rooms_map()[room_id@];
                        or.players@.len() >= or.max_players
                    }),
                    JoinError::AlreadyInRoom => old(self).rooms_map().contains_key(room_id@) && ({
                        let or = old(self).rooms_map()[room_id@];
                        or.players@.len() < or.max_players
                    }) && old(self).index_map().contains_key(player.player_id@),
                },
            },
    {
        match self.rooms.get(room_id) {
            None => {
                return Err(JoinError::RoomNotFound);
            },
            Some(room) => {
                if room.players.len() >= room.max_players {
                    return Err(JoinError::RoomFull);
                }
            },
        }
        if self.player_to_room.contains_key(player.player_id.as_str()) {
            return Err(JoinError::AlreadyInRoom);
        }
        let ghost pre = *self;
        let ghost pid = player.player_id@;
        let ghost rid = room_id@;
        let pid_string = player.player_id.clone();
        let mut room = match self.rooms.remove(room_id) {
            Some(room) => room,
            None => {
                proof {
                    assert(false);
                }
                return Err(JoinError::RoomNotFound);
            },
        };
        let added = room.add_player(player);
        proof {
            assert(added);
        }
        let rid_key = room.room_id.clone();
        self.rooms.insert(rid_key, room);
        self.player_to_room.insert(pid_string, room_id.to_owned());
        proof {
            assert(self.rooms@ =~= pre.rooms@.insert(rid, self.rooms@[rid]));
            assert(self.player_to_room@ =~= pre.player_to_room@.insert(
                pid,
                self.player_to_room@[pid],
            ));
            let or = pre.rooms@[rid];
            let nr = self.rooms@[rid];
            // the new player's id differs from every id already in any room
            assert forall|rid2: Seq<char>, i: int|
                pre.rooms@.contains_key(rid2) && 0 <= i
                    < pre.rooms@[rid2].players@.len() implies (#[trigger] pre.rooms@[
            rid2].players@[i]).player_id@ != pid by {
                assert(pre.player_to_room@.contains_key(pre.rooms@[rid2].players@[i].player_id@));
            }
            assert(distinct_player_ids(nr.players@)) by {
                assert(forall|i: int|
                    0 <= i < or.players@.len() ==> nr.players@[i] == or.players@[i]);
                assert(nr.players@[or.players@.len() as int] == player);
            }
            assert(room_ok(nr, rid));
            assert forall|rid2: Seq<char>| #[trigger]
                self.rooms@.contains_key(rid2) implies room_ok(self.rooms@[rid2], rid2) by {
                if rid2 != rid {
                    assert(pre.rooms@.contains_key(rid2));
                }
            }
            assert forall|rid2: Seq<char>, i: int|
                self.rooms@.contains_key(rid2) && 0 <= i
                    < self.rooms@[rid2].players@.len() implies {
                let p2 = (#[trigger] self.rooms@[rid2].players@[i]).player_id@;
                &&& self.player_to_room@.contains_key(p2)
                &&& self.player_to_room@[p2]@ == rid2
            } by {
                let p2 = self.rooms@[rid2].players@[i].player_id@;
                if rid2 == rid {
                    if i < or.players@.len() {
                        assert(or.players@[i].player_id@ == p2);
                        assert(pre.player_to_room@.contains_key(p2));
                        assert(p2 != pid);
                    } else {
                        assert(self.rooms@[rid2].players@[i] == player);
                    }
                } else {
                    assert(pre.rooms@.contains_key(rid2));
                    assert(pre.rooms@[rid2].players@[i].player_id@ == p2);
                    assert(pre.player_to_room@.contains_key(p2));
                    assert(p2 != pid);
                }
            }
            assert forall|p2: Seq<char>| #[trigger]
                self.player_to_room@.contains_key(p2) implies {
                let rid2 = self.player_to_room@[p2]@;
                &&& self.rooms@.contains_key(rid2)
                &&& player_ids(self.rooms@[rid2].players@).contains(p2)
            } by {
                if p2 == pid {
                    assert(player_ids(nr.players@)[or.players@.len() as int] == pid);
                } else {
                    assert(pre.player_to_room@.contains_key(p2));
                    let rid2 = pre.player_to_room@[p2]@;
                    assert(player_ids(pre.rooms@[rid2].players@).contains(p2));
                    if rid2 == rid {
                        let j = choose|j: int|
                            0 <= j < or.players@.len() && player_ids(or.players@)[j] == p2;
                        assert(nr.players@[j] == or.players@[j]);
                        assert(player_ids(nr.players@)[j] == p2);
                    } else {
                        assert(self.rooms@[rid2] == pre.rooms@[rid2]);
                    }
                }
            }
        }
        Ok(())
    }

    /// Take the player out of whatever room the reverse index holds, deleting
    /// the room when it empties; answers the room id that was left.
    pub fn leave_room(&mut self, player_id: &str) -> (r: Option<String>)
        requires
            old(self).wf(),
        ensures
            final(self).wf(),
            final(self).connections_map() == old(self).connections_map(),
            final(self).index_map() == old(self).index_map().remove(player_id@),
            match r {
                Some(rid) => leave_answer(old(self).index_map(), player_id@) == Some(rid@) && ({
                    let or = old(self).rooms_map()[rid@];
                    let np = without_player(or.players@, player_id@);
                    &&& old(self).rooms_map().contains_key(rid@)
                    &&& (np.len() == 0 ==> final(self).rooms_map() == old(
                        self,
                    ).rooms_map().remove(rid@))
                    &&& (np.len() > 0 ==> ({
                        let nr = final(self).rooms_map()[rid@];
                        &&& final(self).rooms_map() == old(self).rooms_map().insert(rid@, nr)
                        &&& nr.players@ == np
                        &&& nr.room_id == or.room_id
                        &&& nr.game_id == or.game_id
                        &&& nr.host_id == or.host_id
                        &&& nr.max_players == or.max_players
                        &&& nr.created_at == or.created_at
                        &&& nr.is_public == or.is_public
                        &&& nr.game_state == or.game_state
                    }))
                }),
                None => leave_answer(old(self).index_map(), player_id@) is None && *final(self)
                    == *old(self),
            },
    {
        let ghost pid = player_id@;
        let rid_string = match self.player_to_room.remove(player_id) {
            Some(r) => r,
            None => {
                proof {
                    assert(old(self).index_map().remove(pid) =~= old(self).index_map());
                }
                return None;
            },
        };
        let ghost rid = rid_string@;
        let mut room = match self.rooms.remove(rid_string.as_str()) {
            Some(room) => room,
            None => {
                proof {
                    assert(false);
                }
                return None;
            },
        };
        room.remove_player(player_id);
        let ghost pre = *old(self);
        let ghost or = pre.rooms@[rid];
        let ghost np = without_player(or.players@, pid);
        proof {
            lemma_without_player_props(or.players@, pid);
            // the leaving player's id names no other room's players
            assert forall|rid2: Seq<char>, i: int|
                pre.rooms@.contains_key(rid2) && rid2 != rid && 0 <= i
                    < pre.rooms@[rid2].players@.len() implies (#[trigger] pre.rooms@[
            rid2].players@[i]).player_id@ != pid by {
                assert(pre.player_to_room@[pre.rooms@[rid2].players@[i].player_id@]@ == rid2);
            }
        }
        if room.player_count() == 0 {
            proof {
                assert(self.rooms@ == pre.rooms@.remove(rid));
                assert forall|p2: Seq<char>| #[trigger]
                    self.player_to_room@.contains_key(p2) implies {
                    let rid2 = self.player_to_room@[p2]@;
                    &&& self.rooms@.contains_key(rid2)
                    &&& player_ids(self.rooms@[rid2].players@).contains(p2)
                } by {
                    let rid2 = self.player_to_room@[p2]@;
                    assert(pre.player_to_room@.contains_key(p2) && p2 != pid);
                    assert(player_ids(pre.rooms@[rid2].players@).contains(p2));
                    if rid2 == rid {
                        assert(player_ids(np).contains(p2));
                        assert(false);
                    }
                }
                assert forall|rid2: Seq<char>, i: int|
                    self.rooms@.contains_key(rid2) && 0 <= i
                        < self.rooms@[rid2].players@.len() implies {
                    let p2 = (#[trigger] self.rooms@[rid2].players@[i]).player_id@;
                    &&& self.player_to_room@.contains_key(p2)
                    &&& self.player_to_room@[p2]@ == rid2
                } by {
                    let p2 = self.rooms@[rid2].players@[i].player_id@;
                    assert(pre.rooms@.contains_key(rid2) && rid2 != rid);
                    assert(p2 != pid);
                    assert(pre.player_to_room@.contains_key(p2) && pre.player_to_room@[p2]@
                        == rid2);
                }
            }
            Some(rid_string)
        } else {
            let key = room.room_id.clone();
            self.rooms.insert(key, room);
            proof {
                let nr = self.rooms@[rid];
                assert(self.rooms@ =~= pre.rooms@.insert(rid, nr));
                assert(nr.players@ == np);
                assert(room_ok(nr, rid)) by {
                    assert(or.players@.len() <= or.max_players);
                }
                assert forall|rid2: Seq<char>| #[trigger]
                    self.rooms@.contains_key(rid2) implies room_ok(self.rooms@[rid2], rid2) by {
                    if rid2 != rid {
                        assert(pre.rooms@.contains_key(rid2));
                    }
                }
                assert forall|rid2: Seq<char>, i: int|
                    self.rooms@.contains_key(rid2) && 0 <= i
                        < self.rooms@[rid2].players@.len() implies {
                    let p2 = (#[trigger] self.rooms@[rid2].players@[i]).player_id@;
                    &&& self.player_to_room@.contains_key(p2)
                    &&& self.player_to_room@[p2]@ == rid2
                } by {
                    let p2 = self.rooms@[rid2].players@[i].player_id@;
                    if rid2 == rid {
                        assert(np.contains(np[i]));
                        assert(or.players@.contains(np[i]) && p2 != pid);
                        let j = choose|j: int|
                            0 <= j < or.players@.len() && or.players@[j] == np[i];
                        assert(or.players@[j].player_id@ == p2);
                        assert(pre.player_to_room@.contains_key(p2) && pre.player_to_room@[p2]@
                            == rid);
                    } else {
                        assert(pre.rooms@.contains_key(rid2));
                        assert(p2 != pid);
                        assert(pre.player_to_room@.contains_key(p2) && pre.player_to_room@[p2]@
                            == rid2);
                    }
                }
                assert forall|p2: Seq<char>| #[trigger]
                    self.player_to_room@.contains_key(p2) implies {
                    let rid2 = self.player_to_room@[p2]@;
                    &&& self.rooms@.contains_key(rid2)
                    &&& player_ids(self.rooms@[rid2].players@).contains(p2)
                } by {
                    let rid2 = self.player_to_room@[p2]@;
                    assert(pre.player_to_room@.contains_key(p2) && p2 != pid);
                    assert(player_ids(pre.rooms@[rid2].players@).contains(p2));
                    if rid2 == rid {
                        assert(player_ids(np).contains(p2));
                    }
                }
            }
            Some(rid_string)
        }
    }

    /// Replace the pose on the player's in-room record; answers the room id,
    /// or nothing when the player is in no room.
    pub fn update_player(&mut self, player_id: &str, transform: crate::rooms::PlayerTransform) -> (r:
        Option<String>)
        requires
            old(self).wf(),
        ensures
            final(self).wf(),
            final(self).connections_map() == old(self).connections_map(),
            final(self).index_map() == old(self).index_map(),
            match r {
                Some(rid) => old(self).index_map().contains_key(player_id@) && rid@ == old(
                    self,
                ).index_map()[player_id@]@ && ({
                    let or = old(self).rooms_map()[rid@];
                    let nr = final(self).rooms_map()[rid@];
                    &&& old(self).rooms_map().contains_key(rid@)
                    &&& final(self).rooms_map() == old(self).rooms_map().insert(rid@, nr)
                    &&& (exists|i: int|
                        0 <= i < or.players@.len() && or.players@[i].player_id@ == player_id@
                            && nr.players@ == or.players@.update(
                            i,
                            (PlayerState { transform, ..or.players@[i] }),
                        ))
                    &&& nr.room_id == or.room_id
                    &&& nr.game_id == or.game_id
                    &&& nr.host_id == or.host_id
                    &&& nr.max_players == or.max_players
                    &&& nr.created_at == or.created_at
                    &&& nr.is_public == or.is_public
                    &&& nr.game_state == or.game_state
                }),
                None => !old(self).index_map().contains_key(player_id@) && *final(self) == *old(
                    self,
                ),
            },
    {
        let ghost pid = player_id@;
        let rid_string = match self.player_to_room.get(player_id) {
            Some(r) => r.clone(),
            None => {
                return None;
            },
        };
        let ghost rid = rid_string@;
        let mut room = match self.rooms.remove(rid_string.as_str()) {
            Some(room) => room,
            None => {
                proof {
                    assert(false);
                }
                return None;
            },
        };
        let ghost pre = *old(self);
        let ghost or = pre.rooms@[rid];
        proof {
            let j = choose|j: int|
                0 <= j < or.players@.len() && player_ids(or.players@)[j] == pid;
            assert(or.players@[j].player_id@ == pid);
            assert(player_ids(or.players@).contains(pid));
        }
        room.update_player(player_id, transform);
        let key = room.room_id.clone();
        self.rooms.insert(key, room);
        proof {
            let nr = self.rooms@[rid];
            let i = choose|i: int|
                0 <= i < or.players@.len() && or.players@[i].player_id@ == pid && nr.players@
                    == or.players@.update(i, (PlayerState { transform, ..or.players@[i] }));
            assert(self.rooms@ =~= pre.rooms@.insert(rid, nr));
            assert(self.player_to_room@ == pre.player_to_room@);
            assert(forall|k: int|
                0 <= k < nr.players@.len() ==> (#[trigger] nr.players@[k]).player_id@
                    == or.players@[k].player_id@);
            assert(room_ok(nr, rid)) by {
                assert(nr.room_id@ == rid);
                assert(distinct_player_ids(nr.players@));
            }
            assert forall|rid2: Seq<char>| #[trigger]
                self.rooms@.contains_key(rid2) implies room_ok(self.rooms@[rid2], rid2) by {
                if rid2 != rid {
                    assert(pre.rooms@.contains_key(rid2));
                }
            }
            assert forall|rid2: Seq<char>, i2: int|
                self.rooms@.contains_key(rid2) && 0 <= i2
                    < self.rooms@[rid2].players@.len() implies {
                let p2 = (#[trigger] self.rooms@[rid2].players@[i2]).player_id@;
                &&& self.player_to_room@.contains_key(p2)
                &&& self.player_to_room@[p2]@ == rid2
            } by {
                let p2 = self.rooms@[rid2].players@[i2].player_id@;
                if rid2 == rid {
                    assert(or.players@[i2].player_id@ == p2);
                } else {
                    assert(pre.rooms@.contains_key(rid2));
                }
            }
            assert forall|p2: Seq<char>| #[trigger]
                self.player_to_room@.contains_key(p2) implies {
                let rid2 = self.player_to_room@[p2]@;
                &&& self.rooms@.contains_key(rid2)
                &&& player_ids(self.rooms@[rid2].players@).contains(p2)
            } by {
                let rid2 = self.player_to_room@[p2]@;
                assert(player_ids(pre.rooms@[rid2].players@).contains(p2));
                if rid2 == rid {
                    let j = choose|j: int|
                        0 <= j < or.players@.len() && player_ids(or.players@)[j] == p2;
                    assert(nr.players@[j].player_id@ == p2);
                    assert(player_ids(nr.players@)[j] == p2);
                }
            }
        }
        Some(rid_string)
    }

    /// The rooms as an entry list, in storage order; its keys are exactly the
    /// domain of the room map (see `lemma_rooms_list`).
    pub closed spec fn rooms_list(&self) -> Seq<(Seq<char>, GameRoom)> {
        self.rooms.entries_seq()
    }

    /// The entry list and the room map describe each other.
    pub proof fn lemma_rooms_list(&self)
        requires
            self.wf(),
        ensures
            forall|i: int|
                0 <= i < self.rooms_list().len() ==> self.rooms_map().contains_key(
                    (#[trigger] self.rooms_list()[i]).0,
                ) && self.rooms_map()[self.rooms_list()[i].0] == self.rooms_list()[i].1,
            forall|k: Seq<char>|
                self.rooms_map().contains_key(k) ==> exists|i: int|
                    0 <= i < self.rooms_list().len() && (#[trigger] self.rooms_list()[i]).0 == k,
            self.rooms_map().dom().len() == self.rooms_list().len(),
    {
        self.rooms.lemma_entries_view();
        assert forall|k: Seq<char>| self.rooms_map().contains_key(k) implies exists|i: int|
            0 <= i < self.rooms_list().len() && (#[trigger] self.rooms_list()[i]).0 == k by {
            let es = self.rooms.entries_seq();
            let i = choose|i: int| 0 <= i < es.len() && (#[trigger] es[i]).0 == k;
            assert(self.rooms_list()[i].0 == k);
        }
    }

    /// A consistent snapshot of a room, or nothing when the id is unknown.
    pub fn get_room(&self, room_id: &str) -> (r: Option<GameRoom>)
        requires
            self.wf(),
        ensures
            match r {
                Some(room) => self.rooms_map().contains_key(room_id@) && room_like(
                    room,
                    self.rooms_map()[room_id@],
                ),
                None => !self.rooms_map().contains_key(room_id@),
            },
    {
        match self.rooms.get(room_id) {
            Some(room) => Some(clone_room(room)),
            None => None,
        }
    }

    /// A snapshot of a room's member list; empty when the id is unknown.
    pub fn get_room_players(&self, room_id: &str) -> (r: Vec<PlayerState>)
        requires
            self.wf(),
        ensures
            self.rooms_map().contains_key(room_id@) ==> players_like(
                r@,
                self.rooms_map()[room_id@].players@,
            ),
            !self.rooms_map().contains_key(room_id@) ==> r@.len() == 0,
    {
        match self.rooms.get(room_id) {
            Some(room) => clone_players(&room.players),
            None => Vec::new(),
        }
    }

    /// The public, not-full rooms of a game, as (id, occupancy, capacity)
    /// triples in storage order.
    pub fn find_rooms(&self, game_id: &str) -> (r: Vec<(String, usize, usize)>)
        requires
            self.wf(),
        ensures
            listing_views(r@) == available_listing(self.rooms_list(), game_id@),
    {
        let ghost s = self.rooms_list();
        let ghost gid = game_id@;
        let n = self.rooms.num_entries();
        let mut out: Vec<(String, usize, usize)> = Vec::new();
        proof {
            assert(s.skip(0) =~= s);
            assert(listing_views(out@) + available_listing(s.skip(0), gid) =~= available_listing(
                s,
                gid,
            ));
        }
        let mut i: usize = 0;
        while i < n
            invariant
                self.wf(),
                n == s.len(),
                s == self.rooms_list(),
                gid == game_id@,
                0 <= i <= n,
                listing_views(out@) + available_listing(s.skip(i as int), gid) == available_listing(
                    s,
                    gid,
                ),
            decreases n - i,
        {
            proof {
                lemma_available_listing_skip(s, gid, i as int);
            }
            let ghost out_pre = out@;
            let room = self.rooms.value_at(i);
            if contains_at_room(room, game_id) {
                out.push((room.room_id.clone(), room.players.len(), room.max_players));
                proof {
                    let ghost room_g = s[i as int].1;
                    let ghost entry = (room_g.room_id@, room_g.players@.len() as int, room_g.max_players as int);
                    assert(listing_views(out@) =~= listing_views(out_pre) + seq![entry]);
                    assert(listing_views(out@) + available_listing(s.skip(i + 1), gid)
                        =~= listing_views(out_pre) + available_listing(s.skip(i as int), gid));
                }
            }
            i = i + 1;
        }
        proof {
            assert(s.skip(n as int) =~= Seq::<(Seq<char>, GameRoom)>::empty());
            assert(listing_views(out@) =~= available_listing(s, gid));
        }
        out
    }

    /// The ids a broadcast to the room is delivered to: the room's current
    /// members, each exactly once, minus the excluded player if one is named.
    /// The caller sends the message to each of them outside the registry's
    /// lock.
    pub fn broadcast_to_room(&self, room_id: &str, exclude_player: Option<&str>) -> (r: Vec<
        String,
    >)
        requires
            self.wf(),
        ensures
            self.rooms_map().contains_key(room_id@) ==> views_of(r@) == excluding(
                player_ids(self.rooms_map()[room_id@].players@),
                opt_str_view(exclude_player),
            ),
            !self.rooms_map().contains_key(room_id@) ==> r@.len() == 0,
            crate::seqs::no_dup(views_of(r@)),
    {
        let excl: Option<String> = match exclude_player {
            Some(e) => Some(e.to_owned()),
            None => None,
        };
        let ghost exclv = opt_str_view(exclude_player);
        let room = match self.rooms.get(room_id) {
            Some(room) => room,
            None => {
                let empty: Vec<String> = Vec::new();
                proof {
                    assert(views_of(empty@) =~= Seq::<Seq<char>>::empty());
                }
                return empty;
            },
        };
        let ghost ids = player_ids(room.players@);
        proof {
            assert(crate::seqs::no_dup(ids)) by {
                assert(forall|i: int|
                    0 <= i < ids.len() ==> ids[i] == room.players@[i].player_id@);
            }
        }
        let n = room.players.len();
        let mut out: Vec<String> = Vec::new();
        proof {
            assert(ids.skip(0) =~= ids);
            assert(views_of(out@) + excluding(ids.skip(0), exclv) =~= excluding(ids, exclv));
        }
        let mut i: usize = 0;
        while i < n
            invariant
                n == room.players@.len(),
                ids == player_ids(room.players@),
                0 <= i <= n,
                (match excl {
                    Some(ref es) => exclv == Some(es@),
                    None => exclv is None,
                }),
                views_of(out@) + excluding(ids.skip(i as int), exclv) == excluding(ids, exclv),
            decreases n - i,
        {
            proof {
                lemma_excluding_skip(ids, exclv, i as int);
                assert(ids[i as int] == room.players@[i as int].player_id@);
            }
            let ghost out_pre = out@;
            let skip_this = match &excl {
                Some(es) => room.players[i].player_id == *es,
                None => false,
            };
            if !skip_this {
                out.push(room.players[i].player_id.clone());
                proof {
                    assert(views_of(out@) =~= views_of(out_pre) + seq![ids[i as int]]);
                    assert(views_of(out@) + excluding(ids.skip(i + 1), exclv) =~= views_of(out_pre)
                        + excluding(ids.skip(i as int), exclv));
                }
            }
            i = i + 1;
        }
        proof {
            assert(ids.skip(n as int) =~= Seq::<Seq<char>>::empty());
            assert(views_of(out@) =~= excluding(ids, exclv));
            crate::seqs::lemma_excluding_props(ids, exclv);
        }
        out
    }

    /// Bind a player to a transport address, on the transport's behalf.
    pub fn record_connection(&mut self, player_id: &str, remote_addr: String)
        requires
            old(self).wf(),
        ensures
            final(self).wf(),
            final(self).rooms_map() == old(self).rooms_map(),
            final(self).index_map() == old(self).index_map(),
            final(self).connections_map() == old(self).connections_map().insert(
                player_id@,
                remote_addr,
            ),
    {
        self.connections.insert(player_id.to_owned(), remote_addr);
    }

    /// Drop a player's transport binding.
    pub fn drop_connection(&mut self, player_id: &str)
        requires
            old(self).wf(),
        ensures
            final(self).wf(),
            final(self).rooms_map() == old(self).rooms_map(),
            final(self).index_map() == old(self).index_map(),
            final(self).connections_map() == old(self).connections_map().remove(player_id@),
    {
        self.connections.remove(player_id);
    }

    /// Room, player and connection counts. The player count is the sum of the
    /// rooms' occupancies, saturating at the machine limit.
    pub fn get_stats(&self) -> (r: ServerStats)
        requires
            self.wf(),
        ensures
            r.total_rooms == self.rooms_map().dom().len(),
            r.active_connections == self.connections_map().dom().len(),
            r.total_players as int == vstd::math::min(
                sum_players(self.rooms_list()),
                usize::MAX as int,
            ),
    {
        let ghost s = self.rooms_list();
        let n = self.rooms.num_entries();
        let mut total: usize = 0;
        proof {
            assert(s.skip(0) =~= s);
        }
        let mut i: usize = 0;
        while i < n
            invariant
                self.wf(),
                n == s.len(),
                s == self.rooms_list(),
                0 <= i <= n,
                total as int == vstd::math::min(
                    sum_players(s) - sum_players(s.skip(i as int)),
                    usize::MAX as int,
                ),
            decreases n - i,
        {
            proof {
                lemma_sum_players_skip(s, i as int);
                lemma_sum_players_nonneg(s.skip(i + 1));
            }
            let c = self.rooms.value_at(i).players.len();
            total = total.saturating_add(c);
            i = i + 1;
        }
        proof {
            assert(s.skip(n as int) =~= Seq::<(Seq<char>, GameRoom)>::empty());
        }
        ServerStats {
            total_rooms: self.rooms.len(),
            total_players: total,
            active_connections: self.connections.len(),
        }
    }
}

fn contains_at_room(room: &GameRoom, game_id: &str) -> (r: bool)
    ensures
        r == (room.game_id@ == game_id@ && room.is_public && room.players@.len()
            < room.max_players),
{
    let gid = game_id.to_owned();
    room.game_id == gid && room.is_public && room.players.len() < room.max_players
}

/// Server-wide counters, as reported by the registry.
pub struct ServerStats {
    pub total_rooms: usize,
    pub total_players: usize,
    pub active_connections: usize,
}

/// The view of an optionally excluded player id.
pub open spec fn opt_str_view(o: Option<&str>) -> Option<Seq<char>> {
    match o {
        Some(s) => Some(s@),
        None => None,
    }
}

/// The (id, occupancy, capacity) triples of the public, not-full rooms of a
/// game, in entry order.
pub open spec fn available_listing(s: Seq<(Seq<char>, GameRoom)>, gid: Seq<char>) -> Seq<
    (Seq<char>, int, int),
>
    decreases s.len(),
{
    if s.len() == 0 {
        Seq::empty()
    } else {
        let room = s[0].1;
        let rest = available_listing(s.drop_first(), gid);
        if room.game_id@ == gid && room.is_public && room.players@.len() < room.max_players {
            seq![(room.room_id@, room.players@.len() as int, room.max_players as int)] + rest
        } else {
            rest
        }
    }
}

/// One unfolding of `available_listing` along a scan of the suffixes of `s`.
pub proof fn lemma_available_listing_skip(s: Seq<(Seq<char>, GameRoom)>, gid: Seq<char>, i: int)
    requires
        0 <= i < s.len(),
    ensures
        available_listing(s.skip(i), gid) == ({
            let room = s[i].1;
            let rest = available_listing(s.skip(i + 1), gid);
            if room.game_id@ == gid && room.is_public && room.players@.len() < room.max_players {
                seq![(room.room_id@, room.players@.len() as int, room.max_players as int)] + rest
            } else {
                rest
            }
        }),
{
    assert(s.skip(i)[0] == s[i]);
    assert(s.skip(i).drop_first() =~= s.skip(i + 1));
}

/// The views of a listing returned by room search.
pub open spec fn listing_views(s: Seq<(String, usize, usize)>) -> Seq<(Seq<char>, int, int)> {
    s.map_values(|t: (String, usize, usize)| (t.0@, t.1 as int, t.2 as int))
}

/// The total of the rooms' occupancies.
pub open spec fn sum_players(s: Seq<(Seq<char>, GameRoom)>) -> int
    decreases s.len(),
{
    if s.len() == 0 {
        0
    } else {
        s[0].1.players@.len() + sum_players(s.drop_first())
    }
}

/// One unfolding of `sum_players` along a scan of the suffixes of `s`.
pub proof fn lemma_sum_players_skip(s: Seq<(Seq<char>, GameRoom)>, i: int)
    requires
        0 <= i < s.len(),
    ensures
        sum_players(s.skip(i)) == s[i].1.players@.len() + sum_players(s.skip(i + 1)),
{
    assert(s.skip(i)[0] == s[i]);
    assert(s.skip(i).drop_first() =~= s.skip(i + 1));
}

pub proof fn lemma_sum_players_nonneg(s: Seq<(Seq<char>, GameRoom)>)
    ensures
        sum_players(s) >= 0,
    decreases s.len(),
{
    if s.len() > 0 {
        lemma_sum_players_nonneg(s.drop_first());
    }
}

/// What a leave answers, given the reverse index it starts from.
pub open spec fn leave_answer(index: Map<Seq<char>, String>, pid: Seq<char>) -> Option<Seq<char>> {
    if index.contains_key(pid) {
        Some(index[pid]@)
    } else {
        None
    }
}

/// Leaving twice is idempotent: once a leave has removed the player from the
/// reverse index, an immediate second leave for the same player answers
/// nothing.
pub proof fn lemma_double_leave(index: Map<Seq<char>, String>, pid: Seq<char>)
    ensures
        leave_answer(index.remove(pid), pid) is None,
{
}

} // verus!
