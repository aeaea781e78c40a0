use vstd::prelude::*;

use crate::strmap::StrMap;

verus! {

use crate::seqs::{remove_str, lemma_remove_str_skip, views_of, no_dup};
use vstd::arithmetic::div_mod::{lemma_div_plus_one, lemma_basic_div_specific_divisor};

/// The matchmaking service: one first-in first-out queue of waiting players
/// per game.
pub struct MatchmakingService {
    queue: StrMap<Vec<String>>,
}

/// What a match attempt returns: the first `n` waiting ids, when that many
/// are queued.
pub open spec fn match_result(q: Seq<Seq<char>>, n: int) -> Option<Seq<Seq<char>>> {
    if q.len() >= n {
        Some(q.subrange(0, n))
    } else {
        None
    }
}

/// The queue a match attempt leaves behind.
pub open spec fn match_rest(q: Seq<Seq<char>>, n: int) -> Seq<Seq<char>> {
    if q.len() >= n {
        q.skip(n)
    } else {
        q
    }
}

/// The cohorts that repeated match attempts drain from a queue, in order.
pub open spec fn cohorts(q: Seq<Seq<char>>, n: int) -> Seq<Seq<Seq<char>>>
    decreases q.len(),
{
    if n >= 1 && q.len() >= n {
        seq![q.subrange(0, n)] + cohorts(q.skip(n), n)
    } else {
        Seq::empty()
    }
}

/// A successful match attempt takes exactly the first cohort; the remaining
/// queue carries the remaining cohorts.
pub proof fn lemma_match_takes_first_cohort(q: Seq<Seq<char>>, n: int)
    requires
        n >= 1,
        match_result(q, n) is Some,
    ensures
        cohorts(q, n) == seq![match_result(q, n).unwrap()] + cohorts(match_rest(q, n), n),
{
}

/// Repeated match attempts against a queue of length L yield exactly
/// floor(L / n) cohorts.
pub proof fn lemma_cohort_count(q: Seq<Seq<char>>, n: int)
    requires
        n >= 1,
    ensures
        cohorts(q, n).len() == q.len() as int / n,
    decreases q.len(),
{
    if q.len() >= n {
        lemma_cohort_count(q.skip(n), n);
        lemma_div_plus_one(q.len() - n, n);
    } else {
        lemma_basic_div_specific_divisor(n);
    }
}

/// Every member of every cohort comes out of the queue.
pub proof fn lemma_cohort_members(q: Seq<Seq<char>>, n: int)
    requires
        n >= 1,
    ensures
        forall|k: int, e: Seq<char>|
            0 <= k < cohorts(q, n).len() && #[trigger] cohorts(q, n)[k].contains(e) ==> q.contains(
                e,
            ),
    decreases q.len(),
{
    if q.len() >= n {
        let rest = q.skip(n);
        lemma_cohort_members(rest, n);
        assert forall|k: int, e: Seq<char>|
            0 <= k < cohorts(q, n).len() && #[trigger] cohorts(q, n)[k].contains(
                e,
            ) implies q.contains(e) by {
            if k == 0 {
                let c = q.subrange(0, n);
                let i = choose|i: int| 0 <= i < c.len() && c[i] == e;
                assert(q[i] == e);
            } else {
                assert(cohorts(q, n)[k] == cohorts(rest, n)[k - 1]);
                assert(rest.contains(e));
                let i = choose|i: int| 0 <= i < rest.len() && rest[i] == e;
                assert(q[i + n] == e);
            }
        }
    }
}

/// Over a queue without duplicate entries, no player lands in two cohorts.
pub proof fn lemma_cohorts_disjoint(q: Seq<Seq<char>>, n: int)
    requires
        n >= 1,
        no_dup(q),
    ensures
        forall|a: int, b: int, e: Seq<char>|
            0 <= a < b < cohorts(q, n).len() && #[trigger] cohorts(q, n)[a].contains(e)
                ==> !(#[trigger] cohorts(q, n)[b].contains(e)),
    decreases q.len(),
{
    if q.len() >= n {
        let rest = q.skip(n);
        assert(no_dup(rest)) by {
            assert(forall|i: int| 0 <= i < rest.len() ==> rest[i] == q[i + n]);
        }
        lemma_cohorts_disjoint(rest, n);
        lemma_cohort_members(rest, n);
        assert forall|a: int, b: int, e: Seq<char>|
            0 <= a < b < cohorts(q, n).len() && #[trigger] cohorts(q, n)[a].contains(e) implies !(
            #[trigger] cohorts(q, n)[b].contains(e)) by {
            if a == 0 {
                let c = q.subrange(0, n);
                let i = choose|i: int| 0 <= i < c.len() && c[i] == e;
                assert(q[i] == e);
                assert(cohorts(q, n)[b] == cohorts(rest, n)[b - 1]);
                if cohorts(rest, n)[b - 1].contains(e) {
                    assert(rest.contains(e));
                    let j = choose|j: int| 0 <= j < rest.len() && rest[j] == e;
                    assert(q[j + n] == e);
                    assert(q[i] == q[j + n]);
                    assert(false);
                }
            } else {
                assert(cohorts(q, n)[a] == cohorts(rest, n)[a - 1]);
                assert(cohorts(q, n)[b] == cohorts(rest, n)[b - 1]);
            }
        }
    }
}

impl MatchmakingService {
    pub closed spec fn queues(&self) -> Map<Seq<char>, Vec<String>> {
        self.queue@
    }

    pub closed spec fn wf(&self) -> bool {
        self.queue.wf()
    }

    pub fn new() -> (r: Self)
        ensures
            r.wf(),
            r.queues() == Map::<Seq<char>, Vec<String>>::empty(),
    {
        MatchmakingService { queue: StrMap::new() }
    }

    /// Append the player to the game's queue, creating the queue if absent.
    /// No duplicate check is made.
    pub fn join_queue(&mut self, game_id: &str, player_id: &str)
        requires
            old(self).wf(),
        ensures
            final(self).wf(),
            final(self).queues().contains_key(game_id@),
            views_of(final(self).queues()[game_id@]@) == (if old(self).queues().contains_key(
                game_id@,
            ) {
                views_of(old(self).queues()[game_id@]@)
            } else {
                Seq::<Seq<char>>::empty()
            }).push(player_id@),
            final(self).queues() == old(self).queues().insert(
                game_id@,
                final(self).queues()[game_id@],
            ),
    {
        let ghost pre = *self;
        let mut list = match self.queue.remove(game_id) {
            Some(l) => l,
            None => Vec::new(),
        };
        let ghost base = list@;
        list.push(player_id.to_owned());
        self.queue.insert(game_id.to_owned(), list);
        proof {
            assert(self.queue@ =~= pre.queue@.insert(game_id@, self.queue@[game_id@]));
            assert(views_of(self.queue@[game_id@]@) =~= views_of(base).push(player_id@));
            if pre.queue@.contains_key(game_id@) {
                assert(base == pre.queue@[game_id@]@);
            } else {
                assert(views_of(base) =~= Seq::<Seq<char>>::empty());
            }
        }
    }

    /// Remove every occurrence of the player from the game's queue; a no-op
    /// when the game has no queue.
    pub fn leave_queue(&mut self, game_id: &str, player_id: &str)
        requires
            old(self).wf(),
        ensures
            final(self).wf(),
            !old(self).queues().contains_key(game_id@) ==> *final(self) == *old(self),
            old(self).queues().contains_key(game_id@) ==> final(self).queues() == old(
                self,
            ).queues().insert(game_id@, final(self).queues()[game_id@]) && views_of(
                final(self).queues()[game_id@]@,
            ) == remove_str(views_of(old(self).queues()[game_id@]@), player_id@),
    {
        let ghost pre = *self;
        let mut list = match self.queue.remove(game_id) {
            Some(l) => l,
            None => {
                return ;
            },
        };
        let ghost s = views_of(list@);
        let ghost pid = player_id@;
        let key = player_id.to_owned();
        let n = list.len();
        let mut out: Vec<String> = Vec::new();
        proof {
            assert(s.skip(0) =~= s);
            assert(views_of(out@) + remove_str(s.skip(0), pid) =~= remove_str(s, pid));
        }
        let mut i: usize = 0;
        while i < n
            invariant
                n == s.len(),
                0 <= i <= n,
                views_of(list@) == s.skip(i as int),
                list@.len() == s.len() - i,
                views_of(out@) + remove_str(s.skip(i as int), pid) == remove_str(s, pid),
                pid == player_id@,
                key@ == pid,
            decreases n - i,
        {
            proof {
                lemma_remove_str_skip(s, pid, i as int);
            }
            let ghost out_pre = out@;
            let ghost lpre = list@;
            let p = list.remove(0);
            proof {
                assert(views_of(lpre)[0] == lpre[0]@);
                assert(p@ == s[i as int]);
                assert forall|k: int| 0 <= k < views_of(list@).len() implies views_of(list@)[k]
                    == s.skip(i + 1)[k] by {
                    assert(list@[k] == lpre[k + 1]);
                    assert(views_of(lpre)[k + 1] == lpre[k + 1]@);
                }
                assert(views_of(list@) =~= s.skip(i + 1));
            }
            if !(p == key) {
                out.push(p);
                proof {
                    assert(views_of(out@) =~= views_of(out_pre) + seq![s[i as int]]);
                    assert(views_of(out@) + remove_str(s.skip(i + 1), pid) =~= views_of(out_pre)
                        + remove_str(s.skip(i as int), pid));
                }
            }
            i = i + 1;
        }
        proof {
            assert(s.skip(n as int) =~= Seq::<Seq<char>>::empty());
            assert(views_of(out@) =~= remove_str(s, pid));
        }
        self.queue.insert(game_id.to_owned(), out);
        proof {
            assert(self.queue@ =~= pre.queue@.insert(game_id@, self.queue@[game_id@]));
        }
    }

    /// If at least `required_players` ids wait in the game's queue, remove
    /// the first that many and return them as an ordered cohort; otherwise
    /// leave the queue alone and return nothing.
    pub fn find_match(&mut self, game_id: &str, required_players: usize) -> (r: Option<
        Vec<String>,
    >)
        requires
            old(self).wf(),
        ensures
            final(self).wf(),
            !old(self).queues().contains_key(game_id@) ==> r is None && *final(self) == *old(self),
            old(self).queues().contains_key(game_id@) ==> ({
                let q = views_of(old(self).queues()[game_id@]@);
                match r {
                    Some(cohort) => {
                        &&& match_result(q, required_players as int) == Some(views_of(cohort@))
                        &&& final(self).queues() == old(self).queues().insert(
                            game_id@,
                            final(self).queues()[game_id@],
                        )
                        &&& views_of(final(self).queues()[game_id@]@) == match_rest(
                            q,
                            required_players as int,
                        )
                    },
                    None => match_result(q, required_players as int) is None && *final(self)
                        == *old(self),
                }
            }),
    {
        let ghost pre = *self;
        let enough = match self.queue.get(game_id) {
            Some(l) => l.len() >= required_players,
            None => {
                return None;
            },
        };
        if !enough {
            return None;
        }
        let mut list = match self.queue.remove(game_id) {
            Some(l) => l,
            None => {
                proof {
                    assert(false);
                }
                return None;
            },
        };
        let ghost q = views_of(list@);
        let rest = list.split_off(required_players);
        let cohort = list;
        proof {
            assert forall|k: int| 0 <= k < views_of(cohort@).len() implies views_of(cohort@)[k]
                == q.subrange(0, required_players as int)[k] by {
                assert(views_of(cohort@)[k] == cohort@[k]@);
            }
            assert(views_of(cohort@) =~= q.subrange(0, required_players as int));
            assert forall|k: int| 0 <= k < views_of(rest@).len() implies views_of(rest@)[k]
                == q.skip(required_players as int)[k] by {
                assert(views_of(rest@)[k] == rest@[k]@);
            }
            assert(views_of(rest@) =~= q.skip(required_players as int));
        }
        self.queue.insert(game_id.to_owned(), rest);
        proof {
            assert(self.queue@ =~= pre.queue@.insert(game_id@, self.queue@[game_id@]));
        }
        Some(cohort)
    }
}

} // verus!
