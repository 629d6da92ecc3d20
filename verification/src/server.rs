//! Servers and the store that keeps them.
//!
//! A store is modelled as the sequence of its records in insertion order.
//! Each operation is first defined on that sequence, as a pair of spec
//! functions (what it returns, what the sequence is afterwards); the
//! executable store is proved to do exactly that.

use vstd::prelude::*;
use crate::error::Error;

verus! {

/// A remote endpoint whose reachability can be probed.
#[derive(Debug, PartialEq, Eq)]
pub struct Server {
    pub id: u128,
    pub name: String,
    pub ip: String,
    pub port: u16,
}

/// The mathematical value of a [`Server`].
pub struct ServerView {
    pub id: u128,
    pub name: Seq<char>,
    pub ip: Seq<char>,
    pub port: u16,
}

impl View for Server {
    type V = ServerView;

    open spec fn view(&self) -> ServerView {
        ServerView { id: self.id, name: self.name@, ip: self.ip@, port: self.port }
    }
}

impl Server {
    /// An independent copy of the record.
    pub fn copy(&self) -> (r: Server)
        ensures
            r@ == self@,
    {
        Server { id: self.id, name: self.name.clone(), ip: self.ip.clone(), port: self.port }
    }
}

/// Some record of `s` has the identifier `id`.
pub open spec fn has_id(s: Seq<ServerView>, id: u128) -> bool {
    exists|i: int| 0 <= i < s.len() && (#[trigger] s[i]).id == id
}

/// Some record of `s` listens on `ip` and `port`.
pub open spec fn has_endpoint(s: Seq<ServerView>, ip: Seq<char>, port: u16) -> bool {
    exists|i: int| 0 <= i < s.len() && (#[trigger] s[i]).ip == ip && s[i].port == port
}

/// Some record of `s` other than the one named `id` listens on `ip` and `port`.
pub open spec fn endpoint_of_other(s: Seq<ServerView>, id: u128, ip: Seq<char>, port: u16) -> bool {
    exists|i: int|
        0 <= i < s.len() && (#[trigger] s[i]).id != id && s[i].ip == ip && s[i].port == port
}

/// The position in `s` of a record with the identifier `id`.
pub open spec fn index_of(s: Seq<ServerView>, id: u128) -> int {
    choose|i: int| 0 <= i < s.len() && (#[trigger] s[i]).id == id
}

/// No two records of `s` share an identifier, and no two share an endpoint.
pub open spec fn well_formed(s: Seq<ServerView>) -> bool {
    forall|i: int, j: int|
        0 <= i < j < s.len() ==> (#[trigger] s[i]).id != (#[trigger] s[j]).id && !(s[i].ip
            == s[j].ip && s[i].port == s[j].port)
}

/// `patch` with its identifier replaced by `id`.
pub open spec fn with_id(id: u128, patch: ServerView) -> ServerView {
    ServerView { id, name: patch.name, ip: patch.ip, port: patch.port }
}

/// What inserting `rec` into `s` returns.
pub open spec fn insert_outcome(s: Seq<ServerView>, rec: ServerView) -> Result<u128, Error> {
    if has_id(s, rec.id) || has_endpoint(s, rec.ip, rec.port) {
        Err(Error::Conflict)
    } else {
        Ok(rec.id)
    }
}

/// The store after inserting `rec` into `s`.
pub open spec fn after_insert(s: Seq<ServerView>, rec: ServerView) -> Seq<ServerView> {
    if insert_outcome(s, rec) is Ok {
        s.push(rec)
    } else {
        s
    }
}

/// What looking up `id` in `s` returns.
pub open spec fn get_outcome(s: Seq<ServerView>, id: u128) -> Result<ServerView, Error> {
    if has_id(s, id) {
        Ok(s[index_of(s, id)])
    } else {
        Err(Error::NotFound)
    }
}

/// What updating the record `id` of `s` with `patch` returns.
pub open spec fn update_outcome(s: Seq<ServerView>, id: u128, patch: ServerView) -> Result<
    ServerView,
    Error,
> {
    if !has_id(s, id) {
        Err(Error::NotFound)
    } else if endpoint_of_other(s, id, patch.ip, patch.port) {
        Err(Error::Conflict)
    } else {
        Ok(with_id(id, patch))
    }
}

/// The store after updating the record `id` of `s` with `patch`.
pub open spec fn after_update(s: Seq<ServerView>, id: u128, patch: ServerView) -> Seq<ServerView> {
    if update_outcome(s, id, patch) is Ok {
        s.update(index_of(s, id), with_id(id, patch))
    } else {
        s
    }
}

/// What deleting the record `id` of `s` returns.
pub open spec fn delete_outcome(s: Seq<ServerView>, id: u128) -> Result<(), Error> {
    if has_id(s, id) {
        Ok(())
    } else {
        Err(Error::NotFound)
    }
}

/// The store after deleting the record `id` of `s`.
pub open spec fn after_delete(s: Seq<ServerView>, id: u128) -> Seq<ServerView> {
    if has_id(s, id) {
        s.remove(index_of(s, id))
    } else {
        s
    }
}

/// In a well-formed store an identifier names one position only.
pub proof fn lemma_index_of(s: Seq<ServerView>, id: u128, i: int)
    requires
        well_formed(s),
        0 <= i < s.len(),
        s[i].id == id,
    ensures
        has_id(s, id),
        index_of(s, id) == i,
{
    let j = index_of(s, id);
    assert(0 <= j < s.len() && s[j].id == id);
    if j < i {
        assert(s[j].id != s[i].id);
    } else if i < j {
        assert(s[i].id != s[j].id);
    }
}

/// Each operation keeps a well-formed store well-formed.
pub proof fn lemma_operations_keep_well_formed(s: Seq<ServerView>, id: u128, rec: ServerView)
    requires
        well_formed(s),
    ensures
        well_formed(after_insert(s, rec)),
        well_formed(after_update(s, id, rec)),
        well_formed(after_delete(s, id)),
{
    if has_id(s, id) {
        let i = index_of(s, id);
        lemma_index_of(s, id, i);
        if update_outcome(s, id, rec) is Ok {
            let t = s.update(i, with_id(id, rec));
            assert forall|a: int, b: int| 0 <= a < b < t.len() implies (#[trigger] t[a]).id != (
            #[trigger] t[b]).id && !(t[a].ip == t[b].ip && t[a].port == t[b].port) by {
                assert(s[a].id != s[b].id);
                if a == i {
                    assert(s[b].id != id);
                } else if b == i {
                    assert(s[a].id != id);
                }
            }
        }
        let d = s.remove(i);
        assert forall|a: int, b: int| 0 <= a < b < d.len() implies (#[trigger] d[a]).id != (
        #[trigger] d[b]).id && !(d[a].ip == d[b].ip && d[a].port == d[b].port) by {
            let a0 = if a < i { a } else { a + 1 };
            let b0 = if b < i { b } else { b + 1 };
            assert(d[a] == s[a0] && d[b] == s[b0]);
            assert(s[a0].id != s[b0].id);
        }
    }
    if insert_outcome(s, rec) is Ok {
        let t = s.push(rec);
        assert forall|a: int, b: int| 0 <= a < b < t.len() implies (#[trigger] t[a]).id != (
        #[trigger] t[b]).id && !(t[a].ip == t[b].ip && t[a].port == t[b].port) by {
            if b == s.len() {
                assert(t[a] == s[a]);
            } else {
                assert(s[a].id != s[b].id);
            }
        }
    }
}

/// Registering twice on one endpoint, where the first registration succeeds
/// or finds the endpoint taken: the second registration is refused as a
/// conflict, the store stays as the first left it, and it holds exactly one
/// record on that endpoint.
pub proof fn law_same_endpoint_twice(s: Seq<ServerView>, a: ServerView, b: ServerView)
    requires
        well_formed(s),
        a.ip == b.ip,
        a.port == b.port,
        insert_outcome(s, a) is Ok || has_endpoint(s, a.ip, a.port),
    ensures
        insert_outcome(after_insert(s, a), b) == Err::<u128, Error>(Error::Conflict),
        after_insert(after_insert(s, a), b) == after_insert(s, a),
        has_endpoint(after_insert(s, a), a.ip, a.port),
        forall|i: int, j: int|
            #![trigger after_insert(s, a)[i], after_insert(s, a)[j]]
            {
                let t = after_insert(s, a);
                0 <= i < t.len() && 0 <= j < t.len() && t[i].ip == a.ip && t[i].port == a.port
                    && t[j].ip == a.ip && t[j].port == a.port ==> i == j
            },
{
    let t = after_insert(s, a);
    lemma_operations_keep_well_formed(s, 0, a);
    if insert_outcome(s, a) is Ok {
        assert(t[s.len() as int] == a);
    }
    assert(has_endpoint(t, a.ip, a.port));
    assert forall|i: int, j: int|
        0 <= i < t.len() && 0 <= j < t.len() && (#[trigger] t[i]).ip == a.ip && t[i].port == a.port
            && (#[trigger] t[j]).ip == a.ip && t[j].port == a.port implies i == j by {
        if i < j {
            assert(!(t[i].ip == t[j].ip && t[i].port == t[j].port));
        } else if j < i {
            assert(!(t[j].ip == t[i].ip && t[j].port == t[i].port));
        }
    }
}

/// After a record is deleted, looking its identifier up finds nothing.
pub proof fn law_get_after_delete(s: Seq<ServerView>, id: u128)
    requires
        well_formed(s),
    ensures
        get_outcome(after_delete(s, id), id) == Err::<ServerView, Error>(Error::NotFound),
{
    if has_id(s, id) {
        let i = index_of(s, id);
        let d = s.remove(i);
        if has_id(d, id) {
            let k = choose|k: int| 0 <= k < d.len() && (#[trigger] d[k]).id == id;
            let k0 = if k < i { k } else { k + 1 };
            assert(d[k] == s[k0]);
            lemma_index_of(s, id, k0);
        }
    }
}

/// After a successful update, looking the identifier up gives the patch
/// under that identifier, and the store is as long as before.
pub proof fn law_get_after_update(s: Seq<ServerView>, id: u128, patch: ServerView)
    requires
        well_formed(s),
        update_outcome(s, id, patch) is Ok,
    ensures
        get_outcome(after_update(s, id, patch), id) == Ok::<ServerView, Error>(with_id(id, patch)),
        after_update(s, id, patch).len() == s.len(),
{
    let i = index_of(s, id);
    lemma_operations_keep_well_formed(s, id, patch);
    lemma_index_of(after_update(s, id, patch), id, i);
}

/// A change to the store: one of its three mutating operations.
pub enum Change {
    Insert(ServerView),
    Update(u128, ServerView),
    Delete(u128),
}

/// The identifier that a change names.
pub open spec fn target(c: Change) -> u128 {
    match c {
        Change::Insert(rec) => rec.id,
        Change::Update(id, _) => id,
        Change::Delete(id) => id,
    }
}

/// The store after the change `c`.
pub open spec fn apply(s: Seq<ServerView>, c: Change) -> Seq<ServerView> {
    match c {
        Change::Insert(rec) => after_insert(s, rec),
        Change::Update(id, patch) => after_update(s, id, patch),
        Change::Delete(id) => after_delete(s, id),
    }
}

/// A change keeps a well-formed store well-formed.
pub proof fn lemma_change_keeps_well_formed(s: Seq<ServerView>, c: Change)
    requires
        well_formed(s),
    ensures
        well_formed(apply(s, c)),
{
    match c {
        Change::Insert(rec) => {
            lemma_operations_keep_well_formed(s, rec.id, rec);
        },
        Change::Update(id, patch) => {
            lemma_operations_keep_well_formed(s, id, patch);
        },
        Change::Delete(id) => {
            lemma_operations_keep_well_formed(s, id, arbitrary());
        },
    }
}

/// The store after the changes `cs`, made in order.
pub open spec fn apply_all(s: Seq<ServerView>, cs: Seq<Change>) -> Seq<ServerView>
    decreases cs.len(),
{
    if cs.len() == 0 {
        s
    } else {
        apply(apply_all(s, cs.drop_last()), cs.last())
    }
}

/// How many of the changes `cs`, made in order on `s`, are inserts that succeed.
pub open spec fn inserts_done(s: Seq<ServerView>, cs: Seq<Change>) -> nat
    decreases cs.len(),
{
    if cs.len() == 0 {
        0
    } else {
        let before = apply_all(s, cs.drop_last());
        let here: nat = match cs.last() {
            Change::Insert(rec) => if insert_outcome(before, rec) is Ok { 1 } else { 0 },
            _ => 0,
        };
        inserts_done(s, cs.drop_last()) + here
    }
}

/// How many of the changes `cs`, made in order on `s`, are deletes that succeed.
pub open spec fn deletes_done(s: Seq<ServerView>, cs: Seq<Change>) -> nat
    decreases cs.len(),
{
    if cs.len() == 0 {
        0
    } else {
        let before = apply_all(s, cs.drop_last());
        let here: nat = match cs.last() {
            Change::Delete(id) => if delete_outcome(before, id) is Ok { 1 } else { 0 },
            _ => 0,
        };
        deletes_done(s, cs.drop_last()) + here
    }
}

/// After any run of changes the store is well-formed and holds as many
/// records as it had, plus the inserts that succeeded, minus the deletes
/// that succeeded.
pub proof fn law_length_after_changes(s: Seq<ServerView>, cs: Seq<Change>)
    requires
        well_formed(s),
    ensures
        well_formed(apply_all(s, cs)),
        apply_all(s, cs).len() == s.len() + inserts_done(s, cs) - deletes_done(s, cs),
    decreases cs.len(),
{
    if cs.len() > 0 {
        law_length_after_changes(s, cs.drop_last());
        let before = apply_all(s, cs.drop_last());
        lemma_change_keeps_well_formed(before, cs.last());
    }
}

/// A change that names another identifier leaves what a lookup of `id` gives.
pub proof fn law_get_unaffected(s: Seq<ServerView>, c: Change, id: u128)
    requires
        well_formed(s),
        target(c) != id,
    ensures
        get_outcome(apply(s, c), id) == get_outcome(s, id),
{
    let t = apply(s, c);
    lemma_change_keeps_well_formed(s, c);
    if has_id(s, id) {
        let i = index_of(s, id);
        // where the record stands after the change
        let i1 = match c {
            Change::Delete(d) => if has_id(s, d) && index_of(s, d) < i { i - 1 } else { i },
            _ => i,
        };
        assert(0 <= i1 < t.len() && t[i1] == s[i]) by {
            match c {
                Change::Delete(d) => {
                    if has_id(s, d) {
                        assert(index_of(s, d) != i);
                    }
                },
                Change::Update(u, _) => {
                    if has_id(s, u) {
                        assert(index_of(s, u) != i);
                    }
                },
                Change::Insert(_) => {},
            }
        }
        lemma_index_of(t, id, i1);
    } else if has_id(t, id) {
        let k = choose|k: int| 0 <= k < t.len() && (#[trigger] t[k]).id == id;
        match c {
            Change::Insert(rec) => {
                if insert_outcome(s, rec) is Ok {
                    if k < s.len() {
                        assert(t[k] == s[k]);
                    }
                }
            },
            Change::Update(u, patch) => {
                if update_outcome(s, u, patch) is Ok {
                    assert(t[k] == s[k] || t[k].id == u);
                    assert(s[k].id == id);
                }
            },
            Change::Delete(d) => {
                if has_id(s, d) {
                    let k0 = if k < index_of(s, d) { k } else { k + 1 };
                    assert(t[k] == s[k0]);
                }
            },
        }
    }
}

/// A run of changes none of which names `id` leaves what a lookup of `id`
/// gives: a record stays as its last update left it.
pub proof fn law_get_after_other_changes(s: Seq<ServerView>, cs: Seq<Change>, id: u128)
    requires
        well_formed(s),
        forall|i: int| 0 <= i < cs.len() ==> target(#[trigger] cs[i]) != id,
    ensures
        get_outcome(apply_all(s, cs), id) == get_outcome(s, id),
    decreases cs.len(),
{
    if cs.len() > 0 {
        let before = cs.drop_last();
        assert forall|i: int| 0 <= i < before.len() implies target(#[trigger] before[i]) != id by {
            assert(before[i] == cs[i]);
        }
        law_get_after_other_changes(s, before, id);
        law_length_after_changes(s, before);
        assert(cs.last() == cs[cs.len() - 1]);
        law_get_unaffected(apply_all(s, before), cs.last(), id);
    }
}

/// The changes that register the records `recs`, one after the other.
pub open spec fn registrations(recs: Seq<ServerView>) -> Seq<Change> {
    Seq::new(recs.len(), |i: int| Change::Insert(recs[i]))
}

/// However many registrations for one endpoint reach an empty store, and in
/// whatever order, the first one succeeds and every other is refused: the
/// store ends with that one record.
pub proof fn law_one_endpoint_one_winner(recs: Seq<ServerView>)
    requires
        recs.len() >= 1,
        forall|i: int|
            0 <= i < recs.len() ==> (#[trigger] recs[i]).ip == recs[0].ip && recs[i].port
                == recs[0].port,
    ensures
        inserts_done(Seq::empty(), registrations(recs)) == 1,
        apply_all(Seq::empty(), registrations(recs)) == seq![recs[0]],
    decreases recs.len(),
{
    let cs = registrations(recs);
    let start = Seq::<ServerView>::empty();
    assert(cs.drop_last() =~= registrations(recs.drop_last()));
    assert(cs.last() == Change::Insert(recs.last()));
    if recs.len() == 1 {
        assert(apply_all(start, cs.drop_last()) == start);
        assert(inserts_done(start, cs.drop_last()) == 0);
        assert(!has_id(start, recs[0].id) && !has_endpoint(start, recs[0].ip, recs[0].port));
        assert(start.push(recs[0]) =~= seq![recs[0]]);
    } else {
        let prev = recs.drop_last();
        assert(prev[0] == recs[0]);
        assert forall|i: int| 0 <= i < prev.len() implies (#[trigger] prev[i]).ip == prev[0].ip
            && prev[i].port == prev[0].port by {
            assert(prev[i] == recs[i]);
        }
        law_one_endpoint_one_winner(prev);
        let before = apply_all(start, cs.drop_last());
        assert(before[0] == recs[0]);
        assert(has_endpoint(before, recs.last().ip, recs.last().port));
    }
}

/// Registrations that differ from one another in identifier and in endpoint
/// all succeed on an empty store, in whatever order they reach it.
pub proof fn law_distinct_all_succeed(recs: Seq<ServerView>)
    requires
        well_formed(recs),
    ensures
        inserts_done(Seq::empty(), registrations(recs)) == recs.len(),
        apply_all(Seq::empty(), registrations(recs)) == recs,
    decreases recs.len(),
{
    let cs = registrations(recs);
    let start = Seq::<ServerView>::empty();
    if recs.len() == 0 {
        assert(recs =~= start);
    } else {
        let prev = recs.drop_last();
        let last = recs.last();
        assert(cs.drop_last() =~= registrations(prev));
        assert(cs.last() == Change::Insert(last));
        assert forall|i: int, j: int| 0 <= i < j < prev.len() implies (#[trigger] prev[i]).id != (
        #[trigger] prev[j]).id && !(prev[i].ip == prev[j].ip && prev[i].port == prev[j].port) by {
            assert(recs[i].id != recs[j].id);
        }
        law_distinct_all_succeed(prev);
        assert(!has_id(prev, last.id)) by {
            if has_id(prev, last.id) {
                let k = index_of(prev, last.id);
                assert(recs[k].id != recs[recs.len() - 1].id);
            }
        }
        assert(!has_endpoint(prev, last.ip, last.port)) by {
            if has_endpoint(prev, last.ip, last.port) {
                let k = choose|k: int|
                    0 <= k < prev.len() && (#[trigger] prev[k]).ip == last.ip && prev[k].port
                        == last.port;
                assert(recs[k].id != recs[recs.len() - 1].id);
            }
        }
        assert(prev.push(last) =~= recs);
    }
}

/// The servers of the registry, in insertion order.
pub struct ServerStore {
    items: Vec<Server>,
}

impl View for ServerStore {
    type V = Seq<ServerView>;

    closed spec fn view(&self) -> Seq<ServerView> {
        Seq::new(self.items@.len(), |i: int| self.items@[i]@)
    }
}

impl ServerStore {
    /// The store's invariant: identifiers and endpoints are unique.
    pub open spec fn wf(&self) -> bool {
        well_formed(self@)
    }

    /// An empty store.
    pub fn new() -> (r: ServerStore)
        ensures
            r@ == Seq::<ServerView>::empty(),
            r.wf(),
    {
        let r = ServerStore { items: Vec::new() };
        assert(r@ =~= Seq::<ServerView>::empty());
        r
    }

    /// The number of records.
    pub fn len(&self) -> (n: usize)
        ensures
            n == self@.len(),
    {
        self.items.len()
    }

    fn position_of_id(&self, id: u128) -> (r: Option<usize>)
        ensures
            match r {
                Some(i) => i < self@.len() && self@[i as int].id == id,
                None => !has_id(self@, id),
            },
    {
        let mut i: usize = 0;
        while i < self.items.len()
            invariant
                i <= self.items@.len(),
                forall|k: int| 0 <= k < i ==> (#[trigger] self@[k]).id != id,
            decreases self.items@.len() - i,
        {
            if self.items[i].id == id {
                return Some(i);
            }
            i += 1;
        }
        None
    }

    fn position_of_endpoint(&self, ip: &String, port: u16) -> (r: Option<usize>)
        ensures
            match r {
                Some(i) => i < self@.len() && self@[i as int].ip == ip@ && self@[i as int].port
                    == port,
                None => !has_endpoint(self@, ip@, port),
            },
    {
        let mut i: usize = 0;
        while i < self.items.len()
            invariant
                i <= self.items@.len(),
                forall|k: int|
                    0 <= k < i ==> !((#[trigger] self@[k]).ip == ip@ && self@[k].port == port),
            decreases self.items@.len() - i,
        {
            if self.items[i].port == port && self.items[i].ip == *ip {
                return Some(i);
            }
            i += 1;
        }
        None
    }

    /// Adds `rec` unless its identifier or its endpoint is already taken.
    pub fn insert(&mut self, rec: Server) -> (r: Result<u128, Error>)
        requires
            old(self).wf(),
        ensures
            final(self).wf(),
            r == insert_outcome(old(self)@, rec@),
            final(self)@ == after_insert(old(self)@, rec@),
    {
        if self.position_of_id(rec.id).is_some() {
            return Err(Error::Conflict);
        }
        if self.position_of_endpoint(&rec.ip, rec.port).is_some() {
            return Err(Error::Conflict);
        }
        let id = rec.id;
        self.items.push(rec);
        assert(self@ =~= old(self)@.push(rec@));
        Ok(id)
    }

    /// A copy of the record named `id`.
    pub fn get(&self, id: u128) -> (r: Result<Server, Error>)
        requires
            self.wf(),
        ensures
            match r {
                Ok(v) => get_outcome(self@, id) == Ok::<ServerView, Error>(v@),
                Err(e) => get_outcome(self@, id) == Err::<ServerView, Error>(e),
            },
    {
        match self.position_of_id(id) {
            Some(i) => {
                proof {
                    lemma_index_of(self@, id, i as int);
                }
                Ok(self.items[i].copy())
            },
            None => Err(Error::NotFound),
        }
    }

    /// Copies of all records, in insertion order.
    pub fn list(&self) -> (r: Vec<Server>)
        ensures
            r@.len() == self@.len(),
            forall|i: int| 0 <= i < r@.len() ==> (#[trigger] r@[i])@ == self@[i],
    {
        let mut out: Vec<Server> = Vec::new();
        let mut i: usize = 0;
        while i < self.items.len()
            invariant
                i <= self.items@.len(),
                out@.len() == i,
                forall|k: int| 0 <= k < i ==> (#[trigger] out@[k])@ == self@[k],
            decreases self.items@.len() - i,
        {
            out.push(self.items[i].copy());
            i += 1;
        }
        out
    }

    /// Replaces the name, address and port of the record named `id` by those
    /// of `patch`. The identifier stays; the one in `patch` is not read.
    pub fn update(&mut self, id: u128, patch: Server) -> (r: Result<Server, Error>)
        requires
            old(self).wf(),
        ensures
            final(self).wf(),
            match r {
                Ok(v) => update_outcome(old(self)@, id, patch@) == Ok::<ServerView, Error>(v@),
                Err(e) => update_outcome(old(self)@, id, patch@) == Err::<ServerView, Error>(e),
            },
            final(self)@ == after_update(old(self)@, id, patch@),
    {
        let i = match self.position_of_id(id) {
            Some(i) => i,
            None => {
                return Err(Error::NotFound);
            },
        };
        proof {
            lemma_index_of(self@, id, i as int);
        }
        match self.position_of_endpoint(&patch.ip, patch.port) {
            Some(j) => {
                if self.items[j].id != id {
                    return Err(Error::Conflict);
                }
            },
            None => {},
        }
        assert(!endpoint_of_other(self@, id, patch@.ip, patch@.port)) by {
            if endpoint_of_other(self@, id, patch@.ip, patch@.port) {
                let k = choose|k: int|
                    0 <= k < self@.len() && (#[trigger] self@[k]).id != id && self@[k].ip
                        == patch@.ip && self@[k].port == patch@.port;
                assert(has_endpoint(self@, patch@.ip, patch@.port));
                assert(k != i);
            }
        }
        let stored = Server { id, name: patch.name, ip: patch.ip, port: patch.port };
        let back = stored.copy();
        self.items.set(i, stored);
        assert(self@ =~= old(self)@.update(i as int, with_id(id, patch@)));
        Ok(back)
    }

    /// Removes the record named `id`.
    pub fn delete(&mut self, id: u128) -> (r: Result<(), Error>)
        requires
            old(self).wf(),
        ensures
            final(self).wf(),
            r == delete_outcome(old(self)@, id),
            final(self)@ == after_delete(old(self)@, id),
    {
        match self.position_of_id(id) {
            Some(i) => {
                proof {
                    lemma_index_of(self@, id, i as int);
                }
                let _ = self.items.remove(i);
                assert(self@ =~= old(self)@.remove(i as int));
                Ok(())
            },
            None => Err(Error::NotFound),
        }
    }
}

} // verus!
