use vstd::prelude::*;
use crate::client::state::{ConnectionState, ConnectionView};
use crate::strmap::StrMap;

verus! {

/// Where the projections of the connections followed are kept, by connection id.
pub trait StateStorage: Sized {
    /// The stored projections.
    spec fn connections(&self) -> Map<Seq<char>, ConnectionView>;

    spec fn inv(&self) -> bool;

    fn get(&self, connection_id: &str) -> (r: Option<&ConnectionState>)
        requires
            self.inv(),
        ensures
            match r {
                Some(s) => self.connections().contains_key(connection_id@) && s.wf() && s@
                    == self.connections()[connection_id@],
                None => !self.connections().contains_key(connection_id@),
            },
    ;

    fn insert(&mut self, connection_id: String, state: ConnectionState)
        requires
            old(self).inv(),
            state.wf(),
        ensures
            final(self).inv(),
            final(self).connections() == old(self).connections().insert(connection_id@, state@),
    ;

    fn remove(&mut self, connection_id: &str) -> (r: Option<ConnectionState>)
        requires
            old(self).inv(),
        ensures
            final(self).inv(),
            final(self).connections() == old(self).connections().remove(connection_id@),
            match r {
                Some(s) => old(self).connections().contains_key(connection_id@) && s.wf() && s@
                    == old(self).connections()[connection_id@],
                None => !old(self).connections().contains_key(connection_id@),
            },
    ;

    fn list_connections(&self) -> (r: Vec<String>)
        requires
            self.inv(),
        ensures
            r@.map_values(|k: String| k@).no_duplicates(),
            r@.map_values(|k: String| k@).to_set() == self.connections().dom(),
    ;
}

pub open spec fn state_view(s: ConnectionState) -> ConnectionView {
    s@
}

/// Projections kept in memory.
pub struct InMemoryStorage {
    connections: StrMap<ConnectionState>,
}

impl InMemoryStorage {
    pub fn new() -> (r: Self)
        ensures
            r.inv(),
            r.connections() == Map::<Seq<char>, ConnectionView>::empty(),
    {
        let r = InMemoryStorage { connections: StrMap::new() };
        assert(r.connections() =~= Map::<Seq<char>, ConnectionView>::empty());
        r
    }
}

impl StateStorage for InMemoryStorage {
    closed spec fn connections(&self) -> Map<Seq<char>, ConnectionView> {
        self.connections@.map_values(|s: ConnectionState| state_view(s))
    }

    closed spec fn inv(&self) -> bool {
        &&& self.connections.wf()
        &&& forall|k: Seq<char>| #[trigger] self.connections@.contains_key(k) ==> self.connections@[k].wf()
    }

    fn get(&self, connection_id: &str) -> (r: Option<&ConnectionState>) {
        self.connections.get(connection_id)
    }

    fn insert(&mut self, connection_id: String, state: ConnectionState) {
        let ghost before = self.connections@;
        let ghost k = connection_id@;
        let ghost v = state;
        self.connections.insert(connection_id, state);
        assert(before.insert(k, v).map_values(|s: ConnectionState| state_view(s)) =~= before.map_values(
            |s: ConnectionState| state_view(s),
        ).insert(k, v@));
    }

    fn remove(&mut self, connection_id: &str) -> (r: Option<ConnectionState>) {
        let ghost before = self.connections@;
        let r = self.connections.remove(connection_id);
        assert(before.remove(connection_id@).map_values(|s: ConnectionState| state_view(s))
            =~= before.map_values(|s: ConnectionState| state_view(s)).remove(connection_id@));
        r
    }

    fn list_connections(&self) -> (r: Vec<String>) {
        let r = self.connections.keys();
        proof {
            self.connections.lemma_key_order();
            assert(r@.map_values(|k: String| k@).to_set() =~= self.connections().dom());
        }
        r
    }
}

} // verus!
