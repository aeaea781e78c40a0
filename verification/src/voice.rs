use vstd::prelude::*;

use crate::strmap::StrMap;

verus! {

use crate::seqs::{
    remove_str,
    lemma_remove_str_skip,
    lemma_remove_str_props,
    excluding,
    lemma_excluding_skip,
    lemma_excluding_props,
    views_of,
    no_dup,
    push_unique,
    lemma_push_unique_no_dup,
    contains_string,
};

/// The voice overlay: per room, the set of ids enrolled in the voice
/// channel. The overlay does not check that enrollees are members of the
/// room.
pub struct VoiceChatServer {
    active_channels: StrMap<Vec<String>>,
}

impl VoiceChatServer {
    pub closed spec fn channels(&self) -> Map<Seq<char>, Vec<String>> {
        self.active_channels@
    }

    /// The overlay invariant: a room's voice entry exists only while someone
    /// is enrolled in it, and enrollment is a set: no id is listed twice.
    pub closed spec fn wf(&self) -> bool {
        &&& self.active_channels.wf()
        &&& forall|k: Seq<char>| #[trigger]
            self.active_channels@.contains_key(k) ==> self.active_channels@[k]@.len() > 0
        &&& forall|k: Seq<char>| #[trigger]
            self.active_channels@.contains_key(k) ==> no_dup(views_of(self.active_channels@[k]@))
    }

    /// An existing voice channel always has at least one enrollee, and lists
    /// no enrollee twice.
    pub proof fn lemma_channel_nonempty(&self, room_id: Seq<char>)
        requires
            self.wf(),
            self.channels().contains_key(room_id),
        ensures
            self.channels()[room_id]@.len() > 0,
            no_dup(views_of(self.channels()[room_id]@)),
    {
    }

    pub fn new() -> (r: Self)
        ensures
            r.wf(),
            r.channels() == Map::<Seq<char>, Vec<String>>::empty(),
    {
        VoiceChatServer { active_channels: StrMap::new() }
    }

    /// Enroll a player in a room's voice channel, creating the channel if it
    /// does not exist. Enrollment is a set: enrolling an already-enrolled
    /// player changes nothing.
    pub fn join_voice_channel(&mut self, room_id: &str, player_id: &str)
        requires
            old(self).wf(),
        ensures
            final(self).wf(),
            final(self).channels().contains_key(room_id@),
            views_of(final(self).channels()[room_id@]@) == push_unique(
                (if old(self).channels().contains_key(room_id@) {
                    views_of(old(self).channels()[room_id@]@)
                } else {
                    Seq::<Seq<char>>::empty()
                }),
                player_id@,
            ),
            final(self).channels() == old(self).channels().insert(
                room_id@,
                final(self).channels()[room_id@],
            ),
    {
        let ghost pre = *self;
        let mut list = match self.active_channels.remove(room_id) {
            Some(l) => l,
            None => Vec::new(),
        };
        let ghost base = list@;
        let key = player_id.to_owned();
        if !contains_string(&list, &key) {
            list.push(key);
            proof {
                assert(views_of(list@) =~= views_of(base).push(player_id@));
                if pre.active_channels@.contains_key(room_id@) {
                    lemma_push_unique_no_dup(views_of(base), player_id@);
                } else {
                    assert(views_of(base) =~= Seq::<Seq<char>>::empty());
                    lemma_push_unique_no_dup(views_of(base), player_id@);
                }
            }
        }
        self.active_channels.insert(room_id.to_owned(), list);
        proof {
            assert(self.active_channels@ =~= pre.active_channels@.insert(
                room_id@,
                self.active_channels@[room_id@],
            ));
            if pre.active_channels@.contains_key(room_id@) {
                assert(base == pre.active_channels@[room_id@]@);
            } else {
                assert(views_of(base) =~= Seq::<Seq<char>>::empty());
            }
        }
    }

    /// Drop the player's enrollment from the room's voice channel, deleting
    /// the channel when its last enrollee leaves.
    pub fn leave_voice_channel(&mut self, room_id: &str, player_id: &str)
        requires
            old(self).wf(),
        ensures
            final(self).wf(),
            !old(self).channels().contains_key(room_id@) ==> *final(self) == *old(self),
            old(self).channels().contains_key(room_id@) ==> ({
                let nl = remove_str(views_of(old(self).channels()[room_id@]@), player_id@);
                &&& (nl.len() == 0 ==> final(self).channels() == old(self).channels().remove(
                    room_id@,
                ))
                &&& (nl.len() > 0 ==> final(self).channels() == old(self).channels().insert(
                    room_id@,
                    final(self).channels()[room_id@],
                ) && views_of(final(self).channels()[room_id@]@) == nl)
            }),
    {
        let ghost pre = *self;
        let mut list = match self.active_channels.remove(room_id) {
            Some(l) => l,
            None => {
                return ;
            },
        };
        let ghost s = views_of(list@);
        let ghost pid = player_id@;
        let key = player_id.to_owned();
        let n = list.len();
        let mut out: Vec<String> = Vec::new();
        proof {
            assert(s.skip(0) =~= s);
            assert(views_of(out@) + remove_str(s.skip(0), pid) =~= remove_str(s, pid));
            assert(views_of(list@) == s);
        }
        let mut i: usize = 0;
        while i < n
            invariant
                n == s.len(),
                0 <= i <= n,
                views_of(list@) == s.skip(i as int),
                list@.len() == s.len() - i,
                views_of(out@) + remove_str(s.skip(i as int), pid) == remove_str(s, pid),
                pid == player_id@,
                key@ == pid,
            decreases n - i,
        {
            proof {
                lemma_remove_str_skip(s, pid, i as int);
                assert(views_of(list@)[0] == s[i as int]);
            }
            let ghost out_pre = out@;
            let ghost lpre = list@;
            let p = list.remove(0);
            proof {
                assert(views_of(lpre)[0] == lpre[0]@);
                assert(p@ == s[i as int]);
                assert forall|k: int| 0 <= k < views_of(list@).len() implies views_of(list@)[k]
                    == s.skip(i + 1)[k] by {
                    assert(list@[k] == lpre[k + 1]);
                    assert(views_of(lpre)[k + 1] == lpre[k + 1]@);
                }
                assert(views_of(list@) =~= s.skip(i + 1));
            }
            if !(p == key) {
                out.push(p);
                proof {
                    assert(views_of(out@) =~= views_of(out_pre) + seq![s[i as int]]);
                    assert(views_of(out@) + remove_str(s.skip(i + 1), pid) =~= views_of(out_pre)
                        + remove_str(s.skip(i as int), pid));
                }
            }
            i = i + 1;
        }
        proof {
            assert(s.skip(n as int) =~= Seq::<Seq<char>>::empty());
            assert(views_of(out@) =~= remove_str(s, pid));
            lemma_remove_str_props(s, pid);
        }
        if !out.is_empty() {
            self.active_channels.insert(room_id.to_owned(), out);
            proof {
                assert(self.active_channels@ =~= pre.active_channels@.insert(
                    room_id@,
                    self.active_channels@[room_id@],
                ));
            }
        } else {
            proof {
                assert(self.active_channels@ =~= pre.active_channels@.remove(room_id@));
            }
        }
    }

    /// The ids an audio frame from the sender is delivered to: every enrollee
    /// of the room's voice channel other than the sender, each exactly once.
    /// The caller ships the frame to each of them.
    pub fn broadcast_audio(&self, room_id: &str, sender_id: &str, _audio_data: &Vec<u8>) -> (r: Vec<
        String,
    >)
        requires
            self.wf(),
        ensures
            self.channels().contains_key(room_id@) ==> views_of(r@) == excluding(
                views_of(self.channels()[room_id@]@),
                Some(sender_id@),
            ),
            !self.channels().contains_key(room_id@) ==> r@.len() == 0,
            no_dup(views_of(r@)),
    {
        let list = match self.active_channels.get(room_id) {
            Some(l) => l,
            None => {
                let empty: Vec<String> = Vec::new();
                proof {
                    assert(views_of(empty@) =~= Seq::<Seq<char>>::empty());
                }
                return empty;
            },
        };
        let ghost ids = views_of(list@);
        let ghost exclv: Option<Seq<char>> = Some(sender_id@);
        let sender = sender_id.to_owned();
        let n = list.len();
        let mut out: Vec<String> = Vec::new();
        proof {
            assert(ids.skip(0) =~= ids);
            assert(views_of(out@) + excluding(ids.skip(0), exclv) =~= excluding(ids, exclv));
        }
        let mut i: usize = 0;
        while i < n
            invariant
                n == list@.len(),
                ids == views_of(list@),
                0 <= i <= n,
                exclv == Some(sender_id@),
                sender@ == sender_id@,
                views_of(out@) + excluding(ids.skip(i as int), exclv) == excluding(ids, exclv),
            decreases n - i,
        {
            proof {
                lemma_excluding_skip(ids, exclv, i as int);
                assert(ids[i as int] == list@[i as int]@);
            }
            let ghost out_pre = out@;
            if !(list[i] == sender) {
                out.push(list[i].clone());
                proof {
                    assert(views_of(out@) =~= views_of(out_pre) + seq![ids[i as int]]);
                    assert(views_of(out@) + excluding(ids.skip(i + 1), exclv) =~= views_of(out_pre)
                        + excluding(ids.skip(i as int), exclv));
                }
            }
            i = i + 1;
        }
        proof {
            assert(ids.skip(n as int) =~= Seq::<Seq<char>>::empty());
            assert(views_of(out@) =~= excluding(ids, exclv));
            lemma_excluding_props(ids, exclv);
        }
        out
    }
}

} // verus!
