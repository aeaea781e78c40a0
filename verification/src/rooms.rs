use vstd::prelude::*;

use crate::strmap::StrMap;
use crate::trusted;

verus! {

use crate::seqs::opt_view;

/// A 3-vector of 32-bit float components, carried as raw bit patterns: poses
/// are opaque payload that the server relays without reading.
#[derive(Clone, Copy, PartialEq, Eq, Structural, Debug)]
pub struct Vector3 {
    pub x: u32,
    pub y: u32,
    pub z: u32,
}

/// A unit quaternion (x, y, z, w), carried as raw bit patterns like Vector3.
#[derive(Clone, Copy, PartialEq, Eq, Structural, Debug)]
pub struct Quaternion {
    pub x: u32,
    pub y: u32,
    pub z: u32,
    pub w: u32,
}

/// The seven-transform pose bundle: body, head and both hands.
#[derive(Clone, Copy, PartialEq, Eq, Structural, Debug)]
pub struct PlayerTransform {
    pub position: Vector3,
    pub rotation: Quaternion,
    pub head_position: Vector3,
    pub head_rotation: Quaternion,
    pub left_hand_position: Vector3,
    pub left_hand_rotation: Quaternion,
    pub right_hand_position: Vector3,
    pub right_hand_rotation: Quaternion,
}

/// A player's in-room record: identity snapshot, pose and presence flags.
pub struct PlayerState {
    pub player_id: String,
    pub username: String,
    pub transform: PlayerTransform,
    pub avatar_url: Option<String>,
    pub is_talking: bool,
    pub custom_data: StrMap<String>,
}

/// The ids of the players, in list order.
pub open spec fn player_ids(s: Seq<PlayerState>) -> Seq<Seq<char>> {
    s.map_values(|p: PlayerState| p.player_id@)
}

pub open spec fn distinct_player_ids(s: Seq<PlayerState>) -> bool {
    forall|i: int, j: int| 0 <= i < j < s.len() ==> s[i].player_id@ != s[j].player_id@
}

/// Equality of player records up to views: same id, name, pose, avatar,
/// speaking flag and custom data.
pub open spec fn player_like(a: PlayerState, b: PlayerState) -> bool {
    &&& a.player_id@ == b.player_id@
    &&& a.username@ == b.username@
    &&& a.transform == b.transform
    &&& opt_view(a.avatar_url) == opt_view(b.avatar_url)
    &&& a.is_talking == b.is_talking
    &&& a.custom_data@.map_values(|v: String| v@) == b.custom_data@.map_values(|v: String| v@)
}

pub open spec fn players_like(a: Seq<PlayerState>, b: Seq<PlayerState>) -> bool {
    a.len() == b.len() && forall|i: int| 0 <= i < a.len() ==> player_like(a[i], b[i])
}

/// The players that remain once every record with the given id is dropped.
pub open spec fn without_player(s: Seq<PlayerState>, pid: Seq<char>) -> Seq<PlayerState>
    decreases s.len(),
{
    if s.len() == 0 {
        Seq::empty()
    } else if s[0].player_id@ == pid {
        without_player(s.drop_first(), pid)
    } else {
        seq![s[0]] + without_player(s.drop_first(), pid)
    }
}

/// One unfolding of `without_player` along a scan of the suffixes of `s`.
pub proof fn lemma_without_player_skip(s: Seq<PlayerState>, pid: Seq<char>, i: int)
    requires
        0 <= i < s.len(),
    ensures
        without_player(s.skip(i), pid) == if s[i].player_id@ == pid {
            without_player(s.skip(i + 1), pid)
        } else {
            seq![s[i]] + without_player(s.skip(i + 1), pid)
        },
{
    assert(s.skip(i)[0] == s[i]);
    assert(s.skip(i).drop_first() =~= s.skip(i + 1));
}

/// What remains after dropping an id: exactly the records of `s` whose id
/// differs from it, with distinctness of ids preserved.
pub proof fn lemma_without_player_props(s: Seq<PlayerState>, pid: Seq<char>)
    ensures
        without_player(s, pid).len() <= s.len(),
        forall|e: PlayerState| #[trigger]
            without_player(s, pid).contains(e) <==> (s.contains(e) && e.player_id@ != pid),
        forall|q: Seq<char>|
            #[trigger] player_ids(without_player(s, pid)).contains(q) <==> (player_ids(s).contains(
                q,
            ) && q != pid),
        distinct_player_ids(s) ==> distinct_player_ids(without_player(s, pid)),
    decreases s.len(),
{
    let out = without_player(s, pid);
    if s.len() == 0 {
        assert forall|e: PlayerState| #[trigger]
            out.contains(e) <==> (s.contains(e) && e.player_id@ != pid) by {
            if s.contains(e) {
                let i = choose|i: int| 0 <= i < s.len() && s[i] == e;
            }
        }
        assert forall|q: Seq<char>|
            #[trigger] player_ids(out).contains(q) <==> (player_ids(s).contains(q) && q != pid) by {
            if player_ids(s).contains(q) {
                let i = choose|i: int| 0 <= i < s.len() && player_ids(s)[i] == q;
            }
            if player_ids(out).contains(q) {
                let i = choose|i: int| 0 <= i < out.len() && player_ids(out)[i] == q;
            }
        }
    } else {
        let rest = s.drop_first();
        lemma_without_player_props(rest, pid);
        let keeps0: bool = s[0].player_id@ != pid;
        let shift: int = if keeps0 {
            1
        } else {
            0
        };
        assert forall|e: PlayerState| #[trigger]
            out.contains(e) implies (s.contains(e) && e.player_id@ != pid) by {
            let i = choose|i: int| 0 <= i < out.len() && out[i] == e;
            if keeps0 && i == 0 {
                assert(s[0] == e);
            } else {
                assert(without_player(rest, pid)[i - shift] == e);
                assert(without_player(rest, pid).contains(e));
                let j = choose|j: int| 0 <= j < rest.len() && rest[j] == e;
                assert(s[j + 1] == e);
            }
        }
        assert forall|e: PlayerState| s.contains(e) && e.player_id@ != pid implies #[trigger]
            out.contains(e) by {
            let i = choose|i: int| 0 <= i < s.len() && s[i] == e;
            if i == 0 {
                assert(out[0] == e);
            } else {
                assert(rest[i - 1] == e);
                assert(rest.contains(e));
                assert(without_player(rest, pid).contains(e));
                let j = choose|j: int|
                    0 <= j < without_player(rest, pid).len() && without_player(rest, pid)[j] == e;
                assert(out[j + shift] == e);
            }
        }
        assert forall|q: Seq<char>| #[trigger]
            player_ids(out).contains(q) implies (player_ids(s).contains(q) && q != pid) by {
            let i = choose|i: int| 0 <= i < out.len() && player_ids(out)[i] == q;
            assert(out.contains(out[i]));
            let j = choose|j: int| 0 <= j < s.len() && s[j] == out[i];
            assert(player_ids(s)[j] == q);
        }
        assert forall|q: Seq<char>| player_ids(s).contains(q) && q != pid implies #[trigger]
            player_ids(out).contains(q) by {
            let i = choose|i: int| 0 <= i < s.len() && player_ids(s)[i] == q;
            assert(s.contains(s[i]));
            assert(out.contains(s[i]));
            let j = choose|j: int| 0 <= j < out.len() && out[j] == s[i];
            assert(player_ids(out)[j] == q);
        }
        if distinct_player_ids(s) {
            assert(distinct_player_ids(rest)) by {
                assert(forall|i: int| 0 <= i < rest.len() ==> rest[i] == s[i + 1]);
            }
            assert forall|i: int, j: int| 0 <= i < j < out.len() implies out[i].player_id@
                != out[j].player_id@ by {
                if keeps0 && i == 0 {
                    assert(out[0] == s[0]);
                    assert(without_player(rest, pid)[j - 1] == out[j]);
                    assert(without_player(rest, pid).contains(out[j]));
                    assert(rest.contains(out[j]));
                    let k = choose|k: int| 0 <= k < rest.len() && rest[k] == out[j];
                    assert(s[k + 1] == out[j]);
                    assert(s[0].player_id@ != s[k + 1].player_id@);
                } else {
                    assert(out[i] == without_player(rest, pid)[i - shift]);
                    assert(out[j] == without_player(rest, pid)[j - shift]);
                }
            }
        }
    }
}

/// A by-value copy of a player record, equal to the original up to views.
pub fn clone_player(p: &PlayerState) -> (r: PlayerState)
    ensures
        player_like(r, *p),
{
    let avatar_url = match &p.avatar_url {
        Some(s) => Some(s.clone()),
        None => None,
    };
    PlayerState {
        player_id: p.player_id.clone(),
        username: p.username.clone(),
        transform: p.transform,
        avatar_url,
        is_talking: p.is_talking,
        custom_data: p.custom_data.duplicate(),
    }
}

/// A by-value copy of a player list, equal to the original up to views.
pub fn clone_players(v: &Vec<PlayerState>) -> (r: Vec<PlayerState>)
    ensures
        players_like(r@, v@),
{
    let mut r: Vec<PlayerState> = Vec::new();
    let mut i: usize = 0;
    while i < v.len()
        invariant
            0 <= i <= v@.len(),
            r@.len() == i,
            forall|j: int| 0 <= j < i ==> player_like(r@[j], v@[j]),
        decreases v@.len() - i,
    {
        r.push(clone_player(&v[i]));
        i = i + 1;
    }
    r
}

/// Equality of rooms up to views: same id, game, host, capacity, visibility,
/// creation time, players and game state.
pub open spec fn room_like(a: GameRoom, b: GameRoom) -> bool {
    &&& a.room_id@ == b.room_id@
    &&& a.game_id@ == b.game_id@
    &&& a.host_id@ == b.host_id@
    &&& a.max_players == b.max_players
    &&& a.created_at == b.created_at
    &&& a.is_public == b.is_public
    &&& players_like(a.players@, b.players@)
    &&& a.game_state@.map_values(|v: String| v@) == b.game_state@.map_values(|v: String| v@)
}

/// A by-value copy of a room, equal to the original up to views.
pub fn clone_room(room: &GameRoom) -> (r: GameRoom)
    ensures
        room_like(r, *room),
{
    GameRoom {
        room_id: room.room_id.clone(),
        game_id: room.game_id.clone(),
        host_id: room.host_id.clone(),
        max_players: room.max_players,
        players: clone_players(&room.players),
        created_at: room.created_at,
        is_public: room.is_public,
        game_state: room.game_state.duplicate(),
    }
}

/// The unit of shared real-time state: membership, capacity and free-form
/// per-game metadata.
pub struct GameRoom {
    pub room_id: String,
    pub game_id: String,
    pub host_id: String,
    pub max_players: usize,
    pub players: Vec<PlayerState>,
    pub created_at: i64,
    pub is_public: bool,
    pub game_state: StrMap<String>,
}

impl GameRoom {
    pub fn new(room_id: String, game_id: String, host_id: String, max_players: usize) -> (r: Self)
        ensures
            r.room_id == room_id,
            r.game_id == game_id,
            r.host_id == host_id,
            r.max_players == max_players,
            r.players@ == Seq::<PlayerState>::empty(),
            r.is_public,
            r.game_state@ == Map::<Seq<char>, String>::empty(),
            r.game_state.wf(),
    {
        GameRoom {
            room_id,
            game_id,
            host_id,
            max_players,
            players: Vec::new(),
            created_at: trusted::now_ts(),
            is_public: true,
            game_state: StrMap::new(),
        }
    }

    pub fn player_count(&self) -> (r: usize)
        ensures
            r == self.players@.len(),
    {
        self.players.len()
    }

    pub fn is_full(&self) -> (r: bool)
        ensures
            r == (self.players@.len() >= self.max_players),
    {
        self.players.len() >= self.max_players
    }

    /// Append a player if the room has space; answers whether it did.
    pub fn add_player(&mut self, player: PlayerState) -> (r: bool)
        ensures
            r == (old(self).players@.len() < old(self).max_players),
            !r ==> *final(self) == *old(self),
            r ==> final(self).players@ == old(self).players@.push(player),
            r ==> *final(self) == (GameRoom { players: final(self).players, ..*old(self) }),
    {
        if self.players.len() >= self.max_players {
            return false;
        }
        self.players.push(player);
        true
    }

    fn find_player_idx(&self, player_id: &String) -> (r: Option<usize>)
        ensures
            match r {
                Some(i) => i < self.players@.len() && self.players@[i as int].player_id@
                    == player_id@ && forall|j: int|
                    0 <= j < i ==> self.players@[j].player_id@ != player_id@,
                None => forall|j: int|
                    0 <= j < self.players@.len() ==> self.players@[j].player_id@ != player_id@,
            },
    {
        let n = self.players.len();
        let mut i: usize = 0;
        while i < n
            invariant
                n == self.players@.len(),
                0 <= i <= n,
                forall|j: int| 0 <= j < i ==> self.players@[j].player_id@ != player_id@,
            decreases n - i,
        {
            if self.players[i].player_id == *player_id {
                return Some(i);
            }
            i = i + 1;
        }
        None
    }

    /// Drop every record carrying the given id, keeping order.
    pub fn remove_player(&mut self, player_id: &str)
        ensures
            final(self).players@ == without_player(old(self).players@, player_id@),
            *final(self) == (GameRoom { players: final(self).players, ..*old(self) }),
    {
        let key = player_id.to_owned();
        let ghost s = self.players@;
        let ghost pid = player_id@;
        let n = self.players.len();
        let mut out: Vec<PlayerState> = Vec::new();
        proof {
            assert(s.skip(0) =~= s);
            assert(out@ + without_player(s.skip(0), pid) =~= without_player(s, pid));
        }
        let mut i: usize = 0;
        while i < n
            invariant
                n == s.len(),
                0 <= i <= n,
                self.players@ == s.skip(i as int),
                out@ + without_player(s.skip(i as int), pid) == without_player(s, pid),
                pid == player_id@,
                key@ == pid,
                self.room_id == old(self).room_id,
                self.game_id == old(self).game_id,
                self.host_id == old(self).host_id,
                self.max_players == old(self).max_players,
                self.created_at == old(self).created_at,
                self.is_public == old(self).is_public,
                self.game_state == old(self).game_state,
            decreases n - i,
        {
            proof {
                lemma_without_player_skip(s, pid, i as int);
                assert(self.players@.len() > 0);
            }
            let ghost out_pre = out@;
            let p = self.players.remove(0);
            proof {
                assert(s.skip(i as int).remove(0) =~= s.skip(i + 1));
                assert(p == s.skip(i as int)[0]);
                assert(p == s[i as int]);
            }
            if !(p.player_id == key) {
                proof {
                    assert(key@ == player_id@);
                    assert(s[i as int].player_id@ != pid);
                    assert(without_player(s.skip(i as int), pid) == seq![s[i as int]]
                        + without_player(s.skip(i + 1), pid));
                }
                out.push(p);
                proof {
                    assert(out@ =~= out_pre + seq![s[i as int]]);
                    assert(out@ + without_player(s.skip(i + 1), pid) =~= out_pre + (seq![
                        s[i as int],
                    ] + without_player(s.skip(i + 1), pid)));
                }
            } else {
                proof {
                    assert(s[i as int].player_id@ == pid);
                    assert(without_player(s.skip(i as int), pid) == without_player(
                        s.skip(i + 1),
                        pid,
                    ));
                }
            }
            i = i + 1;
        }
        proof {
            assert(s.skip(n as int) =~= Seq::<PlayerState>::empty());
            assert(out@ =~= without_player(s, pid));
        }
        self.players = out;
    }

    /// The record of the given player, if one is present.
    pub fn get_player(&self, player_id: &str) -> (r: Option<&PlayerState>)
        ensures
            match r {
                Some(p) => self.players@.contains(*p) && p.player_id@ == player_id@,
                None => !player_ids(self.players@).contains(player_id@),
            },
    {
        let key = player_id.to_owned();
        match self.find_player_idx(&key) {
            Some(i) => {
                proof {
                    assert(self.players@.contains(self.players@[i as int]));
                }
                Some(&self.players[i])
            },
            None => {
                proof {
                    if player_ids(self.players@).contains(player_id@) {
                        let j = choose|j: int|
                            0 <= j < self.players@.len() && player_ids(self.players@)[j]
                                == player_id@;
                    }
                }
                None
            },
        }
    }

    /// Replace the pose on the first record carrying the given id.
    pub fn update_player(&mut self, player_id: &str, transform: PlayerTransform)
        ensures
            !player_ids(old(self).players@).contains(player_id@) ==> *final(self) == *old(self),
            player_ids(old(self).players@).contains(player_id@) ==> exists|i: int|
                0 <= i < old(self).players@.len() && old(self).players@[i].player_id@ == player_id@
                    && final(self).players@ == old(self).players@.update(
                    i,
                    (PlayerState { transform, ..old(self).players@[i] }),
                ),
            *final(self) == (GameRoom { players: final(self).players, ..*old(self) }),
    {
        let key = player_id.to_owned();
        match self.find_player_idx(&key) {
            Some(i) => {
                let mut p = self.players.remove(i);
                p.transform = transform;
                self.players.insert(i, p);
                proof {
                    assert(self.players@ =~= old(self).players@.update(
                        i as int,
                        (PlayerState { transform, ..old(self).players@[i as int] }),
                    ));
                    assert(player_ids(old(self).players@)[i as int] == player_id@);
                }
            },
            None => {
                proof {
                    if player_ids(old(self).players@).contains(player_id@) {
                        let j = choose|j: int|
                            0 <= j < old(self).players@.len() && player_ids(old(self).players@)[j]
                                == player_id@;
                    }
                }
            },
        }
    }
}

} // verus!
