//! The flow-demultiplexing table: one connection per flow key.
use vstd::prelude::*;
use crate::tcp::{Connection, OutSegment, State, TcpFields, accept_spec, close_spec, step, tick_spec};

verus! {

/// The 4-tuple that identifies one flow, keyed in the direction the segment
/// was received: the peer's endpoint first, ours second.
#[derive(Clone, Copy, Debug, PartialEq, Eq, Structural)]
pub struct FlowKey {
    pub src_addr: u32,
    pub src_port: u16,
    pub dst_addr: u32,
    pub dst_port: u16,
}

impl FlowKey {
    /// The same flow seen from the other direction.
    pub open spec fn swapped_spec(self) -> FlowKey {
        FlowKey {
            src_addr: self.dst_addr,
            src_port: self.dst_port,
            dst_addr: self.src_addr,
            dst_port: self.src_port,
        }
    }

    /// Exec form of `swapped_spec`.
    pub fn swapped(&self) -> (r: FlowKey)
        ensures
            r == self.swapped_spec(),
    {
        FlowKey {
            src_addr: self.dst_addr,
            src_port: self.dst_port,
            dst_addr: self.src_addr,
            dst_port: self.src_port,
        }
    }

    /// Direction-independent form of the key: of the two orientations, the
    /// one whose first endpoint is the smaller.
    pub open spec fn canonical_spec(self) -> FlowKey {
        if self.src_addr < self.dst_addr || (self.src_addr == self.dst_addr && self.src_port
            <= self.dst_port) {
            self
        } else {
            self.swapped_spec()
        }
    }

    /// Exec form of `canonical_spec`.
    pub fn canonical(&self) -> (r: FlowKey)
        ensures
            r == self.canonical_spec(),
    {
        if self.src_addr < self.dst_addr || (self.src_addr == self.dst_addr && self.src_port
            <= self.dst_port) {
            *self
        } else {
            self.swapped()
        }
    }
}

/// Law: direction-aware key construction is consistent no matter which side
/// sent first: a key and its reverse share one canonical form, so frames of
/// both directions of a flow route to the same connection.
pub proof fn lemma_canonical_direction_independent(k: FlowKey)
    ensures
        k.canonical_spec() == k.swapped_spec().canonical_spec(),
{
}

/// The mathematical content of an entry list: the map from key to
/// connection, later entries winning (with unique keys nothing is shadowed).
pub open spec fn map_of(s: Seq<(FlowKey, Connection)>) -> Map<FlowKey, Connection>
    decreases s.len(),
{
    if s.len() == 0 {
        Map::empty()
    } else {
        map_of(s.drop_last()).insert(s.last().0, s.last().1)
    }
}

/// No two entries share a key.
pub open spec fn unique_keys(s: Seq<(FlowKey, Connection)>) -> bool {
    forall|i: int, j: int| 0 <= i < j < s.len() ==> (#[trigger] s[i]).0 != (#[trigger] s[j]).0
}

/// A key is in the map exactly when some entry holds it.
pub proof fn lemma_map_of_contains(s: Seq<(FlowKey, Connection)>, k: FlowKey)
    ensures
        map_of(s).contains_key(k) <==> exists|i: int| 0 <= i < s.len() && (#[trigger] s[i]).0 == k,
    decreases s.len(),
{
    if s.len() > 0 {
        lemma_map_of_contains(s.drop_last(), k);
        if s.last().0 == k {
            assert(s[s.len() - 1].0 == k);
        }
        if exists|i: int| 0 <= i < s.len() && (#[trigger] s[i]).0 == k {
            let i = choose|i: int| 0 <= i < s.len() && (#[trigger] s[i]).0 == k;
            if i < s.len() - 1 {
                assert(s.drop_last()[i].0 == k);
            }
        }
    }
}

/// A key held by no entry is not in the map.
pub proof fn lemma_map_of_absent(s: Seq<(FlowKey, Connection)>, k: FlowKey)
    requires
        forall|i: int| 0 <= i < s.len() ==> (#[trigger] s[i]).0 != k,
    ensures
        !map_of(s).contains_key(k),
{
    lemma_map_of_contains(s, k);
}

/// With unique keys, each entry is the map's value at its key.
pub proof fn lemma_map_of_index(s: Seq<(FlowKey, Connection)>, i: int)
    requires
        unique_keys(s),
        0 <= i < s.len(),
    ensures
        map_of(s).contains_key(s[i].0),
        map_of(s)[s[i].0] == s[i].1,
    decreases s.len(),
{
    if i < s.len() - 1 {
        assert(s[i].0 != s[s.len() - 1].0);
        lemma_map_of_index(s.drop_last(), i);
    }
}

/// Appending an entry inserts it into the map; a fresh key keeps the keys
/// unique.
pub proof fn lemma_map_of_push(s: Seq<(FlowKey, Connection)>, e: (FlowKey, Connection))
    ensures
        map_of(s.push(e)) == map_of(s).insert(e.0, e.1),
        (unique_keys(s) && (forall|j: int| 0 <= j < s.len() ==> (#[trigger] s[j]).0 != e.0))
            ==> unique_keys(s.push(e)),
{
    assert(s.push(e).drop_last() =~= s);
    assert(s.push(e).last() == e);
    if unique_keys(s) && (forall|j: int| 0 <= j < s.len() ==> (#[trigger] s[j]).0 != e.0) {
        assert forall|a: int, b: int|
            0 <= a < b < s.push(e).len() implies (#[trigger] s.push(e)[a]).0 != (
        #[trigger] s.push(e)[b]).0 by {
            if b < s.len() {
                assert(s[a].0 != s[b].0);
            } else {
                assert(s[a].0 != e.0);
            }
        }
    }
}

/// Dropping the entry at `i` removes its key from the map and touches no
/// other key.
pub proof fn lemma_map_of_remove(s: Seq<(FlowKey, Connection)>, i: int)
    requires
        unique_keys(s),
        0 <= i < s.len(),
    ensures
        unique_keys(s.remove(i)),
        map_of(s.remove(i)) == map_of(s).remove(s[i].0),
        forall|j: int| 0 <= j < s.remove(i).len() ==> (#[trigger] s.remove(i)[j]).0 != s[i].0,
    decreases s.len(),
{
    let k = s[i].0;
    let r = s.remove(i);
    assert forall|j: int| 0 <= j < r.len() implies (#[trigger] r[j]).0 != k by {
        if j < i {
            assert(r[j] == s[j]);
            assert(s[j].0 != s[i].0);
        } else {
            assert(r[j] == s[j + 1]);
            assert(s[i].0 != s[j + 1].0);
        }
    }
    assert forall|a: int, b: int| 0 <= a < b < r.len() implies (#[trigger] r[a]).0 != (
    #[trigger] r[b]).0 by {
        let a0 = if a < i {
            a
        } else {
            a + 1
        };
        let b0 = if b < i {
            b
        } else {
            b + 1
        };
        assert(r[a] == s[a0]);
        assert(r[b] == s[b0]);
        assert(s[a0].0 != s[b0].0);
    }
    if i == s.len() - 1 {
        assert(r =~= s.drop_last());
        assert forall|j: int| 0 <= j < s.drop_last().len() implies (#[trigger] s.drop_last()[j]).0
            != k by {
            assert(s[j].0 != s[i].0);
        }
        lemma_map_of_absent(s.drop_last(), k);
        assert(map_of(s).remove(k) =~= map_of(s.drop_last()));
    } else {
        assert forall|a: int, b: int|
            0 <= a < b < s.drop_last().len() implies (#[trigger] s.drop_last()[a]).0 != (
        #[trigger] s.drop_last()[b]).0 by {
            assert(s[a].0 != s[b].0);
        }
        lemma_map_of_remove(s.drop_last(), i);
        assert(r.drop_last() =~= s.drop_last().remove(i));
        assert(r.last() == s.last());
        assert(s[i].0 != s[s.len() - 1].0);
        assert(map_of(s.drop_last()).remove(k).insert(s.last().0, s.last().1) =~= map_of(
            s.drop_last(),
        ).insert(s.last().0, s.last().1).remove(k));
    }
}

/// What one inbound segment does to the whole table: an existing connection
/// steps (and may leave), an unmatched segment may create one.
pub open spec fn table_step(
    m: Map<FlowKey, Connection>,
    key: FlowKey,
    t: TcpFields,
    data_len: nat,
) -> (Map<FlowKey, Connection>, Option<OutSegment>) {
    if m.contains_key(key) {
        let s = step(m[key], t, data_len);
        (
            if s.2 {
                m.remove(key)
            } else {
                m.insert(key, s.0)
            },
            s.1,
        )
    } else {
        match accept_spec(t) {
            Some(p) => (m.insert(key, p.0), Some(p.1)),
            None => (m, None),
        }
    }
}

/// What one timer tick does to one keyed connection in the table.
pub open spec fn table_tick(m: Map<FlowKey, Connection>, key: FlowKey) -> (Map<
    FlowKey,
    Connection,
>, Option<OutSegment>) {
    if m.contains_key(key) {
        let s = tick_spec(m[key]);
        (
            if s.2 {
                m.remove(key)
            } else {
                m.insert(key, s.0)
            },
            s.1,
        )
    } else {
        (m, None)
    }
}

/// What a local close does to one keyed connection in the table.
pub open spec fn table_close(m: Map<FlowKey, Connection>, key: FlowKey) -> (Map<
    FlowKey,
    Connection,
>, Option<OutSegment>) {
    if m.contains_key(key) {
        let s = close_spec(m[key]);
        (m.insert(key, s.0), s.1)
    } else {
        (m, None)
    }
}

/// The table of live connections. It owns every connection; entries are
/// created on handshake acceptance and removed on reset, teardown or
/// expiry.
pub struct ConnectionTable {
    entries: Vec<(FlowKey, Connection)>,
}

impl ConnectionTable {
    /// The map this table stands for.
    pub closed spec fn view_map(self) -> Map<FlowKey, Connection> {
        map_of(self.entries@)
    }

    /// Keys are unique and every held connection is well formed.
    pub closed spec fn wf(self) -> bool {
        unique_keys(self.entries@) && (forall|i: int|
            0 <= i < self.entries@.len() ==> (#[trigger] self.entries@[i]).1.wf())
    }

    /// An empty table.
    pub fn new() -> (r: ConnectionTable)
        ensures
            r.wf(),
            r.view_map() == Map::<FlowKey, Connection>::empty(),
    {
        ConnectionTable { entries: Vec::new() }
    }

    /// Index of the entry holding `key`, if any.
    fn find(&self, key: &FlowKey) -> (r: Option<usize>)
        ensures
            match r {
                Some(i) => i < self.entries@.len() && self.entries@[i as int].0 == *key,
                None => forall|j: int|
                    0 <= j < self.entries@.len() ==> (#[trigger] self.entries@[j]).0 != *key,
            },
    {
        let mut i: usize = 0;
        while i < self.entries.len()
            invariant
                i <= self.entries@.len(),
                forall|j: int| 0 <= j < i ==> (#[trigger] self.entries@[j]).0 != *key,
            decreases self.entries@.len() - i,
        {
            if self.entries[i].0 == *key {
                return Some(i);
            }
            i = i + 1;
        }
        None
    }

    /// Is a connection present for `key`?
    pub fn contains(&self, key: &FlowKey) -> (r: bool)
        ensures
            r == self.view_map().contains_key(*key),
    {
        match self.find(key) {
            Some(i) => {
                proof {
                    lemma_map_of_contains(self.entries@, *key);
                }
                true
            },
            None => {
                proof {
                    lemma_map_of_absent(self.entries@, *key);
                }
                false
            },
        }
    }

    /// The connection held for `key`, if any.
    pub fn get(&self, key: &FlowKey) -> (r: Option<Connection>)
        requires
            self.wf(),
        ensures
            r == (if self.view_map().contains_key(*key) {
                Some(self.view_map()[*key])
            } else {
                None::<Connection>
            }),
    {
        match self.find(key) {
            Some(i) => {
                proof {
                    lemma_map_of_index(self.entries@, i as int);
                }
                Some(self.entries[i].1)
            },
            None => {
                proof {
                    lemma_map_of_absent(self.entries@, *key);
                }
                None
            },
        }
    }

    /// Insert a connection under a fresh key; an occupied key refuses the
    /// insertion and changes nothing.
    pub fn insert(&mut self, key: FlowKey, conn: Connection) -> (r: bool)
        requires
            old(self).wf(),
            conn.wf(),
        ensures
            final(self).wf(),
            r == !old(self).view_map().contains_key(key),
            r ==> final(self).view_map() == old(self).view_map().insert(key, conn),
            !r ==> final(self).view_map() == old(self).view_map(),
    {
        match self.find(&key) {
            Some(i) => {
                proof {
                    lemma_map_of_contains(self.entries@, key);
                }
                false
            },
            None => {
                proof {
                    lemma_map_of_absent(self.entries@, key);
                    lemma_map_of_push(self.entries@, (key, conn));
                }
                self.entries.push((key, conn));
                true
            },
        }
    }

    /// Demultiplex one parsed segment onto the table, as `table_step` says:
    /// an existing connection steps and may leave the table; an unmatched
    /// SYN may create a connection; an unmatched non-SYN segment is dropped
    /// without an answer. A reset on a live connection outside time-wait
    /// removes it with no reply.
    pub fn handle_segment(&mut self, key: FlowKey, t: &TcpFields, data_len: usize) -> (r: Option<
        OutSegment,
    >)
        requires
            old(self).wf(),
            data_len <= 0xFFFF,
        ensures
            final(self).wf(),
            final(self).view_map() == table_step(old(self).view_map(), key, *t, data_len as nat).0,
            r == table_step(old(self).view_map(), key, *t, data_len as nat).1,
            t.rst && old(self).view_map().contains_key(key) && old(self).view_map()[key].state
                != State::TimeWait ==> r is None && final(self).view_map() == old(
                self,
            ).view_map().remove(key),
    {
        let ghost s0 = self.entries@;
        match self.find(&key) {
            Some(i) => {
                proof {
                    lemma_map_of_index(s0, i as int);
                    lemma_map_of_remove(s0, i as int);
                    assert(s0[i as int].1.wf());
                }
                let e = self.entries.remove(i);
                let mut conn = e.1;
                let out = conn.on_packet(t, data_len);
                if !out.done {
                    proof {
                        lemma_map_of_push(self.entries@, (key, conn));
                        assert(map_of(s0).remove(key).insert(key, conn) =~= map_of(s0).insert(
                            key,
                            conn,
                        ));
                    }
                    self.entries.push((key, conn));
                    proof {
                        assert forall|j: int|
                            0 <= j < self.entries@.len() implies (
                        #[trigger] self.entries@[j]).1.wf() by {
                            if j < self.entries@.len() - 1 {
                                assert(self.entries@[j] == s0.remove(i as int)[j]);
                                if j < i as int {
                                    assert(s0.remove(i as int)[j] == s0[j]);
                                    assert(s0[j].1.wf());
                                } else {
                                    assert(s0.remove(i as int)[j] == s0[j + 1]);
                                    assert(s0[j + 1].1.wf());
                                }
                            }
                        }
                    }
                } else {
                    proof {
                        assert forall|j: int|
                            0 <= j < self.entries@.len() implies (
                        #[trigger] self.entries@[j]).1.wf() by {
                            if j < i as int {
                                assert(s0.remove(i as int)[j] == s0[j]);
                                assert(s0[j].1.wf());
                            } else {
                                assert(s0.remove(i as int)[j] == s0[j + 1]);
                                assert(s0[j + 1].1.wf());
                            }
                        }
                    }
                }
                out.reply
            },
            None => {
                proof {
                    lemma_map_of_absent(s0, key);
                }
                match Connection::accept(t) {
                    Some((c, seg)) => {
                        proof {
                            lemma_map_of_push(s0, (key, c));
                        }
                        self.entries.push((key, c));
                        proof {
                            assert forall|j: int|
                                0 <= j < self.entries@.len() implies (
                            #[trigger] self.entries@[j]).1.wf() by {
                                if j < s0.len() {
                                    assert(self.entries@[j] == s0[j]);
                                    assert(s0[j].1.wf());
                                }
                            }
                        }
                        Some(seg)
                    },
                    None => None,
                }
            },
        }
    }

    /// One timer tick for the connection under `key`, as `table_tick` says:
    /// it may retransmit, and an expired or abandoned connection leaves the
    /// table.
    pub fn tick(&mut self, key: FlowKey) -> (r: Option<OutSegment>)
        requires
            old(self).wf(),
        ensures
            final(self).wf(),
            final(self).view_map() == table_tick(old(self).view_map(), key).0,
            r == table_tick(old(self).view_map(), key).1,
    {
        let ghost s0 = self.entries@;
        match self.find(&key) {
            Some(i) => {
                proof {
                    lemma_map_of_index(s0, i as int);
                    lemma_map_of_remove(s0, i as int);
                    assert(s0[i as int].1.wf());
                }
                let e = self.entries.remove(i);
                let mut conn = e.1;
                let out = conn.on_tick();
                if !out.done {
                    proof {
                        lemma_map_of_push(self.entries@, (key, conn));
                        assert(map_of(s0).remove(key).insert(key, conn) =~= map_of(s0).insert(
                            key,
                            conn,
                        ));
                    }
                    self.entries.push((key, conn));
                    proof {
                        assert forall|j: int|
                            0 <= j < self.entries@.len() implies (
                        #[trigger] self.entries@[j]).1.wf() by {
                            if j < self.entries@.len() - 1 {
                                assert(self.entries@[j] == s0.remove(i as int)[j]);
                                if j < i as int {
                                    assert(s0.remove(i as int)[j] == s0[j]);
                                    assert(s0[j].1.wf());
                                } else {
                                    assert(s0.remove(i as int)[j] == s0[j + 1]);
                                    assert(s0[j + 1].1.wf());
                                }
                            }
                        }
                    }
                } else {
                    proof {
                        assert forall|j: int|
                            0 <= j < self.entries@.len() implies (
                        #[trigger] self.entries@[j]).1.wf() by {
                            if j < i as int {
                                assert(s0.remove(i as int)[j] == s0[j]);
                                assert(s0[j].1.wf());
                            } else {
                                assert(s0.remove(i as int)[j] == s0[j + 1]);
                                assert(s0[j + 1].1.wf());
                            }
                        }
                    }
                }
                out.resend
            },
            None => {
                proof {
                    lemma_map_of_absent(s0, key);
                }
                None
            },
        }
    }

    /// Close our side of the connection under `key`, as `table_close` says:
    /// from established or close-wait this sends a FIN.
    pub fn close(&mut self, key: FlowKey) -> (r: Option<OutSegment>)
        requires
            old(self).wf(),
        ensures
            final(self).wf(),
            final(self).view_map() == table_close(old(self).view_map(), key).0,
            r == table_close(old(self).view_map(), key).1,
    {
        let ghost s0 = self.entries@;
        match self.find(&key) {
            Some(i) => {
                proof {
                    lemma_map_of_index(s0, i as int);
                    lemma_map_of_remove(s0, i as int);
                    assert(s0[i as int].1.wf());
                }
                let e = self.entries.remove(i);
                let mut conn = e.1;
                let out = conn.local_close();
                proof {
                    lemma_map_of_push(self.entries@, (key, conn));
                    assert(map_of(s0).remove(key).insert(key, conn) =~= map_of(s0).insert(
                        key,
                        conn,
                    ));
                }
                self.entries.push((key, conn));
                proof {
                    assert forall|j: int|
                        0 <= j < self.entries@.len() implies (#[trigger] self.entries@[j]).1.wf() by {
                        if j < self.entries@.len() - 1 {
                            assert(self.entries@[j] == s0.remove(i as int)[j]);
                            if j < i as int {
                                assert(s0.remove(i as int)[j] == s0[j]);
                                assert(s0[j].1.wf());
                            } else {
                                assert(s0.remove(i as int)[j] == s0[j + 1]);
                                assert(s0[j + 1].1.wf());
                            }
                        }
                    }
                }
                out
            },
            None => {
                proof {
                    lemma_map_of_absent(s0, key);
                }
                None
            },
        }
    }

    /// Remove the connection under `key`, if any.
    pub fn remove(&mut self, key: &FlowKey) -> (r: bool)
        requires
            old(self).wf(),
        ensures
            final(self).wf(),
            r == old(self).view_map().contains_key(*key),
            final(self).view_map() == old(self).view_map().remove(*key),
    {
        match self.find(key) {
            Some(i) => {
                proof {
                    lemma_map_of_contains(self.entries@, *key);
                    lemma_map_of_remove(self.entries@, i as int);
                }
                let _ = self.entries.remove(i);
                true
            },
            None => {
                proof {
                    lemma_map_of_absent(self.entries@, *key);
                    assert(map_of(self.entries@).remove(*key) =~= map_of(self.entries@));
                }
                false
            },
        }
    }
}

} // verus!
