use vstd::prelude::*;

use crate::strmap::StrMap;

verus! {

/// An optional token -> player-id cache kept by the outer layer. It is never
/// consulted as proof of validity: the token itself is authoritative.
pub struct SessionManager {
    active_sessions: StrMap<String>,
}

impl SessionManager {
    pub closed spec fn sessions(&self) -> Map<Seq<char>, String> {
        self.active_sessions@
    }

    pub closed spec fn wf(&self) -> bool {
        self.active_sessions.wf()
    }

    pub fn new() -> (r: Self)
        ensures
            r.wf(),
            r.sessions() == Map::<Seq<char>, String>::empty(),
    {
        SessionManager { active_sessions: StrMap::new() }
    }

    pub fn create_session(&mut self, token: String, user_id: String)
        requires
            old(self).wf(),
        ensures
            final(self).wf(),
            final(self).sessions() == old(self).sessions().insert(token@, user_id),
    {
        self.active_sessions.insert(token, user_id);
    }

    pub fn get_user_id(&self, token: &str) -> (r: Option<String>)
        requires
            self.wf(),
        ensures
            match r {
                Some(id) => self.sessions().contains_key(token@) && id == self.sessions()[token@],
                None => !self.sessions().contains_key(token@),
            },
    {
        match self.active_sessions.get(token) {
            Some(id) => Some(id.clone()),
            None => None,
        }
    }

    pub fn remove_session(&mut self, token: &str)
        requires
            old(self).wf(),
        ensures
            final(self).wf(),
            final(self).sessions() == old(self).sessions().remove(token@),
    {
        self.active_sessions.remove(token);
    }

    pub fn active_count(&self) -> (r: usize)
        requires
            self.wf(),
        ensures
            r == self.sessions().dom().len(),
    {
        self.active_sessions.len()
    }
}

} // verus!
