//! Portals, the configurations they refer to, and the store that keeps both.
//!
//! The two collections live in one store because each constrains the other:
//! a portal names a configuration that must exist, and a configuration that
//! a portal names cannot be deleted. Deleting such a configuration is
//! refused; nothing is ever deleted in cascade.

use vstd::prelude::*;
use crate::error::Error;

verus! {

/// A configuration shared by any number of portals.
#[derive(Debug, PartialEq, Eq)]
pub struct PortalConfig {
    pub id: u128,
    pub name: String,
}

/// The mathematical value of a [`PortalConfig`].
pub struct ConfigView {
    pub id: u128,
    pub name: Seq<char>,
}

impl View for PortalConfig {
    type V = ConfigView;

    open spec fn view(&self) -> ConfigView {
        ConfigView { id: self.id, name: self.name@ }
    }
}

impl PortalConfig {
    /// An independent copy of the record.
    pub fn copy(&self) -> (r: PortalConfig)
        ensures
            r@ == self@,
    {
        PortalConfig { id: self.id, name: self.name.clone() }
    }
}

/// A placement record: where a portal stands, how it looks, and the
/// configuration it uses.
#[allow(non_snake_case)]
#[derive(Clone, Copy, Debug, PartialEq, Eq, Structural)]
pub struct Portal {
    pub index: u32,
    pub frameBlockId: i32,
    pub lightWithItemId: i32,
    pub color_b: u8,
    pub color_g: u8,
    pub color_r: u8,
    pub configId: u128,
}

/// The mathematical value of a [`PortalStore`]: its configurations and its
/// portals, each in insertion order.
pub struct PortalsView {
    pub configs: Seq<ConfigView>,
    pub portals: Seq<Portal>,
}

/// Some configuration of `c` has the identifier `id`.
pub open spec fn has_config(c: Seq<ConfigView>, id: u128) -> bool {
    exists|i: int| 0 <= i < c.len() && (#[trigger] c[i]).id == id
}

/// The position in `c` of a configuration with the identifier `id`.
pub open spec fn config_index(c: Seq<ConfigView>, id: u128) -> int {
    choose|i: int| 0 <= i < c.len() && (#[trigger] c[i]).id == id
}

/// Some portal of `p` has the index `index`.
pub open spec fn has_portal(p: Seq<Portal>, index: u32) -> bool {
    exists|i: int| 0 <= i < p.len() && (#[trigger] p[i]).index == index
}

/// The position in `p` of a portal with the index `index`.
pub open spec fn portal_position(p: Seq<Portal>, index: u32) -> int {
    choose|i: int| 0 <= i < p.len() && (#[trigger] p[i]).index == index
}

/// Some portal of `p` uses the configuration `id`.
pub open spec fn is_referenced(p: Seq<Portal>, id: u128) -> bool {
    exists|i: int| 0 <= i < p.len() && (#[trigger] p[i]).configId == id
}

/// Configuration identifiers are unique, portal indices are unique, and
/// every portal names a configuration of the store.
pub open spec fn well_formed(s: PortalsView) -> bool {
    &&& forall|i: int, j: int|
        0 <= i < j < s.configs.len() ==> (#[trigger] s.configs[i]).id != (#[trigger] s.configs[j]).id
    &&& forall|i: int, j: int|
        0 <= i < j < s.portals.len() ==> (#[trigger] s.portals[i]).index != (
        #[trigger] s.portals[j]).index
    &&& forall|i: int|
        0 <= i < s.portals.len() ==> has_config(s.configs, (#[trigger] s.portals[i]).configId)
}

/// `patch` with its identifier replaced by `id`.
pub open spec fn config_with_id(id: u128, patch: ConfigView) -> ConfigView {
    ConfigView { id, name: patch.name }
}

/// `patch` with its index replaced by `index`.
pub open spec fn portal_with_index(index: u32, patch: Portal) -> Portal {
    Portal {
        index,
        frameBlockId: patch.frameBlockId,
        lightWithItemId: patch.lightWithItemId,
        color_b: patch.color_b,
        color_g: patch.color_g,
        color_r: patch.color_r,
        configId: patch.configId,
    }
}

/// What inserting the configuration `rec` returns.
pub open spec fn insert_config_outcome(s: PortalsView, rec: ConfigView) -> Result<u128, Error> {
    if has_config(s.configs, rec.id) {
        Err(Error::Conflict)
    } else {
        Ok(rec.id)
    }
}

/// The store after inserting the configuration `rec`.
pub open spec fn after_insert_config(s: PortalsView, rec: ConfigView) -> PortalsView {
    if insert_config_outcome(s, rec) is Ok {
        PortalsView { configs: s.configs.push(rec), portals: s.portals }
    } else {
        s
    }
}

/// What looking up the configuration `id` returns.
pub open spec fn get_config_outcome(s: PortalsView, id: u128) -> Result<ConfigView, Error> {
    if has_config(s.configs, id) {
        Ok(s.configs[config_index(s.configs, id)])
    } else {
        Err(Error::NotFound)
    }
}

/// What updating the configuration `id` with `patch` returns.
pub open spec fn update_config_outcome(s: PortalsView, id: u128, patch: ConfigView) -> Result<
    ConfigView,
    Error,
> {
    if has_config(s.configs, id) {
        Ok(config_with_id(id, patch))
    } else {
        Err(Error::NotFound)
    }
}

/// The store after updating the configuration `id` with `patch`.
pub open spec fn after_update_config(s: PortalsView, id: u128, patch: ConfigView) -> PortalsView {
    if has_config(s.configs, id) {
        PortalsView {
            configs: s.configs.update(config_index(s.configs, id), config_with_id(id, patch)),
            portals: s.portals,
        }
    } else {
        s
    }
}

/// What deleting the configuration `id` returns.
pub open spec fn delete_config_outcome(s: PortalsView, id: u128) -> Result<(), Error> {
    if !has_config(s.configs, id) {
        Err(Error::NotFound)
    } else if is_referenced(s.portals, id) {
        Err(Error::ReferentialConflict)
    } else {
        Ok(())
    }
}

/// The store after deleting the configuration `id`.
pub open spec fn after_delete_config(s: PortalsView, id: u128) -> PortalsView {
    if delete_config_outcome(s, id) is Ok {
        PortalsView { configs: s.configs.remove(config_index(s.configs, id)), portals: s.portals }
    } else {
        s
    }
}

/// What inserting the portal `p` returns.
pub open spec fn insert_portal_outcome(s: PortalsView, p: Portal) -> Result<u32, Error> {
    if has_portal(s.portals, p.index) || !has_config(s.configs, p.configId) {
        Err(Error::Conflict)
    } else {
        Ok(p.index)
    }
}

/// The store after inserting the portal `p`.
pub open spec fn after_insert_portal(s: PortalsView, p: Portal) -> PortalsView {
    if insert_portal_outcome(s, p) is Ok {
        PortalsView { configs: s.configs, portals: s.portals.push(p) }
    } else {
        s
    }
}

/// What looking up the portal `index` returns.
pub open spec fn get_portal_outcome(s: PortalsView, index: u32) -> Result<Portal, Error> {
    if has_portal(s.portals, index) {
        Ok(s.portals[portal_position(s.portals, index)])
    } else {
        Err(Error::NotFound)
    }
}

/// What updating the portal `index` with `patch` returns.
pub open spec fn update_portal_outcome(s: PortalsView, index: u32, patch: Portal) -> Result<
    Portal,
    Error,
> {
    if !has_portal(s.portals, index) {
        Err(Error::NotFound)
    } else if !has_config(s.configs, patch.configId) {
        Err(Error::Conflict)
    } else {
        Ok(portal_with_index(index, patch))
    }
}

/// The store after updating the portal `index` with `patch`.
pub open spec fn after_update_portal(s: PortalsView, index: u32, patch: Portal) -> PortalsView {
    if update_portal_outcome(s, index, patch) is Ok {
        PortalsView {
            configs: s.configs,
            portals: s.portals.update(
                portal_position(s.portals, index),
                portal_with_index(index, patch),
            ),
        }
    } else {
        s
    }
}

/// What deleting the portal `index` returns.
pub open spec fn delete_portal_outcome(s: PortalsView, index: u32) -> Result<(), Error> {
    if has_portal(s.portals, index) {
        Ok(())
    } else {
        Err(Error::NotFound)
    }
}

/// The store after deleting the portal `index`.
pub open spec fn after_delete_portal(s: PortalsView, index: u32) -> PortalsView {
    if has_portal(s.portals, index) {
        PortalsView {
            configs: s.configs,
            portals: s.portals.remove(portal_position(s.portals, index)),
        }
    } else {
        s
    }
}

/// In a well-formed store a configuration identifier names one position only.
pub proof fn lemma_config_index(s: PortalsView, id: u128, i: int)
    requires
        well_formed(s),
        0 <= i < s.configs.len(),
        s.configs[i].id == id,
    ensures
        has_config(s.configs, id),
        config_index(s.configs, id) == i,
{
    let j = config_index(s.configs, id);
    assert(0 <= j < s.configs.len() && s.configs[j].id == id);
    if j < i {
        assert(s.configs[j].id != s.configs[i].id);
    } else if i < j {
        assert(s.configs[i].id != s.configs[j].id);
    }
}

/// In a well-formed store a portal index names one position only.
pub proof fn lemma_portal_position(s: PortalsView, index: u32, i: int)
    requires
        well_formed(s),
        0 <= i < s.portals.len(),
        s.portals[i].index == index,
    ensures
        has_portal(s.portals, index),
        portal_position(s.portals, index) == i,
{
    let j = portal_position(s.portals, index);
    assert(0 <= j < s.portals.len() && s.portals[j].index == index);
    if j < i {
        assert(s.portals[j].index != s.portals[i].index);
    } else if i < j {
        assert(s.portals[i].index != s.portals[j].index);
    }
}

proof fn lemma_configs_stay_distinct(s: PortalsView, t: Seq<ConfigView>)
    requires
        well_formed(s),
        t.len() == s.configs.len(),
        forall|i: int| 0 <= i < t.len() ==> (#[trigger] t[i]).id == s.configs[i].id,
    ensures
        forall|i: int, j: int| 0 <= i < j < t.len() ==> (#[trigger] t[i]).id != (#[trigger] t[j]).id,
        forall|id: u128| has_config(s.configs, id) ==> has_config(t, id),
{
    assert forall|i: int, j: int| 0 <= i < j < t.len() implies (#[trigger] t[i]).id != (
    #[trigger] t[j]).id by {
        assert(s.configs[i].id != s.configs[j].id);
    }
    assert forall|id: u128| has_config(s.configs, id) implies has_config(t, id) by {
        let k = config_index(s.configs, id);
        assert(t[k].id == id);
    }
}

/// Each operation on configurations keeps a well-formed store well-formed.
pub proof fn law_config_operations_keep_well_formed(s: PortalsView, id: u128, c: ConfigView)
    requires
        well_formed(s),
    ensures
        well_formed(after_insert_config(s, c)),
        well_formed(after_update_config(s, id, c)),
        well_formed(after_delete_config(s, id)),
{
    if insert_config_outcome(s, c) is Ok {
        let t = after_insert_config(s, c);
        assert forall|i: int, j: int| 0 <= i < j < t.configs.len() implies (
        #[trigger] t.configs[i]).id != (#[trigger] t.configs[j]).id by {
            assert(t.configs[i] == s.configs[i]);
            if j < s.configs.len() {
                assert(s.configs[i].id != s.configs[j].id);
            }
        }
        assert forall|k: int| 0 <= k < t.portals.len() implies has_config(
            t.configs,
            (#[trigger] t.portals[k]).configId,
        ) by {
            let at = config_index(s.configs, s.portals[k].configId);
            assert(has_config(s.configs, s.portals[k].configId));
            assert(t.configs[at] == s.configs[at]);
        }
    }
    if has_config(s.configs, id) {
        let i = config_index(s.configs, id);
        let t = after_update_config(s, id, c);
        lemma_configs_stay_distinct(s, t.configs);
        assert forall|k: int| 0 <= k < t.portals.len() implies has_config(
            t.configs,
            (#[trigger] t.portals[k]).configId,
        ) by {
            assert(has_config(s.configs, s.portals[k].configId));
        }
        if delete_config_outcome(s, id) is Ok {
            let d = after_delete_config(s, id);
            assert forall|a: int, b: int| 0 <= a < b < d.configs.len() implies (
            #[trigger] d.configs[a]).id != (#[trigger] d.configs[b]).id by {
                let a0 = if a < i { a } else { a + 1 };
                let b0 = if b < i { b } else { b + 1 };
                assert(d.configs[a] == s.configs[a0] && d.configs[b] == s.configs[b0]);
                assert(s.configs[a0].id != s.configs[b0].id);
            }
            assert forall|k: int| 0 <= k < d.portals.len() implies has_config(
                d.configs,
                (#[trigger] d.portals[k]).configId,
            ) by {
                let at = config_index(s.configs, s.portals[k].configId);
                assert(has_config(s.configs, s.portals[k].configId));
                assert(s.portals[k].configId != id);
                let at1 = if at < i { at } else { at - 1 };
                assert(d.configs[at1] == s.configs[at]);
            }
        }
    }
}

/// Each operation on portals keeps a well-formed store well-formed.
pub proof fn law_portal_operations_keep_well_formed(s: PortalsView, index: u32, p: Portal)
    requires
        well_formed(s),
    ensures
        well_formed(after_insert_portal(s, p)),
        well_formed(after_update_portal(s, index, p)),
        well_formed(after_delete_portal(s, index)),
{
    if insert_portal_outcome(s, p) is Ok {
        let t = after_insert_portal(s, p);
        assert forall|a: int, b: int| 0 <= a < b < t.portals.len() implies (
        #[trigger] t.portals[a]).index != (#[trigger] t.portals[b]).index by {
            assert(t.portals[a] == s.portals[a]);
            if b < s.portals.len() {
                assert(s.portals[a].index != s.portals[b].index);
            }
        }
        assert forall|k: int| 0 <= k < t.portals.len() implies has_config(
            t.configs,
            (#[trigger] t.portals[k]).configId,
        ) by {
            if k < s.portals.len() {
                assert(t.portals[k] == s.portals[k]);
            }
        }
    }
    if has_portal(s.portals, index) {
        let i = portal_position(s.portals, index);
        if update_portal_outcome(s, index, p) is Ok {
            let t = after_update_portal(s, index, p);
            assert forall|a: int, b: int| 0 <= a < b < t.portals.len() implies (
            #[trigger] t.portals[a]).index != (#[trigger] t.portals[b]).index by {
                assert(s.portals[a].index != s.portals[b].index);
            }
            assert forall|k: int| 0 <= k < t.portals.len() implies has_config(
                t.configs,
                (#[trigger] t.portals[k]).configId,
            ) by {
                if k != i {
                    assert(t.portals[k] == s.portals[k]);
                }
            }
        }
        let d = after_delete_portal(s, index);
        assert forall|a: int, b: int| 0 <= a < b < d.portals.len() implies (
        #[trigger] d.portals[a]).index != (#[trigger] d.portals[b]).index by {
            let a0 = if a < i { a } else { a + 1 };
            let b0 = if b < i { b } else { b + 1 };
            assert(d.portals[a] == s.portals[a0] && d.portals[b] == s.portals[b0]);
            assert(s.portals[a0].index != s.portals[b0].index);
        }
        assert forall|k: int| 0 <= k < d.portals.len() implies has_config(
            d.configs,
            (#[trigger] d.portals[k]).configId,
        ) by {
            let k0 = if k < i { k } else { k + 1 };
            assert(d.portals[k] == s.portals[k0]);
        }
    }
}

/// Deleting a configuration that a portal uses is refused as a referential
/// conflict; the store stays as it was, and the configuration is still found.
pub proof fn law_referenced_config_stays(s: PortalsView, id: u128)
    requires
        well_formed(s),
        is_referenced(s.portals, id),
    ensures
        delete_config_outcome(s, id) == Err::<(), Error>(Error::ReferentialConflict),
        after_delete_config(s, id) == s,
        has_config(after_delete_config(s, id).configs, id),
        get_config_outcome(after_delete_config(s, id), id) is Ok,
{
    let k = choose|k: int| 0 <= k < s.portals.len() && (#[trigger] s.portals[k]).configId == id;
    assert(has_config(s.configs, s.portals[k].configId));
}

/// After a configuration that no portal uses is deleted, looking its
/// identifier up finds nothing.
pub proof fn law_get_config_after_delete(s: PortalsView, id: u128)
    requires
        well_formed(s),
        !is_referenced(s.portals, id),
    ensures
        get_config_outcome(after_delete_config(s, id), id) == Err::<ConfigView, Error>(
            Error::NotFound,
        ),
{
    if has_config(s.configs, id) {
        let i = config_index(s.configs, id);
        let d = s.configs.remove(i);
        if has_config(d, id) {
            let k = choose|k: int| 0 <= k < d.len() && (#[trigger] d[k]).id == id;
            let k0 = if k < i { k } else { k + 1 };
            assert(d[k] == s.configs[k0]);
            lemma_config_index(s, id, k0);
        }
    }
}

/// After a portal is deleted, looking its index up finds nothing.
pub proof fn law_get_portal_after_delete(s: PortalsView, index: u32)
    requires
        well_formed(s),
    ensures
        get_portal_outcome(after_delete_portal(s, index), index) == Err::<Portal, Error>(
            Error::NotFound,
        ),
{
    if has_portal(s.portals, index) {
        let i = portal_position(s.portals, index);
        let d = s.portals.remove(i);
        if has_portal(d, index) {
            let k = choose|k: int| 0 <= k < d.len() && (#[trigger] d[k]).index == index;
            let k0 = if k < i { k } else { k + 1 };
            assert(d[k] == s.portals[k0]);
            lemma_portal_position(s, index, k0);
        }
    }
}

/// How each operation that succeeds changes the number of records: an
/// insert adds one, a delete takes one away, an update leaves it.
pub proof fn law_counts(s: PortalsView, id: u128, index: u32, c: ConfigView, p: Portal)
    requires
        well_formed(s),
    ensures
        after_insert_config(s, c).configs.len() == s.configs.len() + (if insert_config_outcome(
            s,
            c,
        ) is Ok {
            1int
        } else {
            0int
        }),
        after_delete_config(s, id).configs.len() == s.configs.len() - (if delete_config_outcome(
            s,
            id,
        ) is Ok {
            1int
        } else {
            0int
        }),
        after_update_config(s, id, c).configs.len() == s.configs.len(),
        after_insert_portal(s, p).portals.len() == s.portals.len() + (if insert_portal_outcome(
            s,
            p,
        ) is Ok {
            1int
        } else {
            0int
        }),
        after_delete_portal(s, index).portals.len() == s.portals.len() - (if delete_portal_outcome(
            s,
            index,
        ) is Ok {
            1int
        } else {
            0int
        }),
        after_update_portal(s, index, p).portals.len() == s.portals.len(),
{
    if has_config(s.configs, id) {
        let i = config_index(s.configs, id);
        assert(0 <= i < s.configs.len());
    }
    if has_portal(s.portals, index) {
        let i = portal_position(s.portals, index);
        assert(0 <= i < s.portals.len());
    }
}

/// After a successful update, a lookup gives the patch under the record's
/// own identifier.
pub proof fn law_get_after_update(s: PortalsView, id: u128, index: u32, c: ConfigView, p: Portal)
    requires
        well_formed(s),
    ensures
        update_config_outcome(s, id, c) is Ok ==> get_config_outcome(
            after_update_config(s, id, c),
            id,
        ) == Ok::<ConfigView, Error>(config_with_id(id, c)),
        update_portal_outcome(s, index, p) is Ok ==> get_portal_outcome(
            after_update_portal(s, index, p),
            index,
        ) == Ok::<Portal, Error>(portal_with_index(index, p)),
{
    if update_config_outcome(s, id, c) is Ok {
        let i = config_index(s.configs, id);
        let t = s.configs.update(i, config_with_id(id, c));
        assert(0 <= i < s.configs.len() && s.configs[i].id == id);
        assert(t[i].id == id);
        let j = config_index(t, id);
        assert(0 <= j < t.len() && t[j].id == id);
        if j != i {
            assert(s.configs[j].id == id);
            lemma_config_index(s, id, j);
        }
    }
    if update_portal_outcome(s, index, p) is Ok {
        let i = portal_position(s.portals, index);
        let t = s.portals.update(i, portal_with_index(index, p));
        assert(0 <= i < s.portals.len() && s.portals[i].index == index);
        assert(t[i].index == index);
        let j = portal_position(t, index);
        assert(0 <= j < t.len() && t[j].index == index);
        if j != i {
            assert(s.portals[j].index == index);
            lemma_portal_position(s, index, j);
        }
    }
}

/// A change to the store: one of its six mutating operations.
pub enum Change {
    InsertConfig(ConfigView),
    UpdateConfig(u128, ConfigView),
    DeleteConfig(u128),
    InsertPortal(Portal),
    UpdatePortal(u32, Portal),
    DeletePortal(u32),
}

/// The store after the change `c`.
pub open spec fn apply(s: PortalsView, c: Change) -> PortalsView {
    match c {
        Change::InsertConfig(rec) => after_insert_config(s, rec),
        Change::UpdateConfig(id, patch) => after_update_config(s, id, patch),
        Change::DeleteConfig(id) => after_delete_config(s, id),
        Change::InsertPortal(p) => after_insert_portal(s, p),
        Change::UpdatePortal(index, patch) => after_update_portal(s, index, patch),
        Change::DeletePortal(index) => after_delete_portal(s, index),
    }
}

/// The store after the changes `cs`, made in order.
pub open spec fn apply_all(s: PortalsView, cs: Seq<Change>) -> PortalsView
    decreases cs.len(),
{
    if cs.len() == 0 {
        s
    } else {
        apply(apply_all(s, cs.drop_last()), cs.last())
    }
}

/// By how many the change `c` makes the configurations more: one for an
/// insert that succeeds, minus one for a delete that succeeds.
pub open spec fn config_gain(s: PortalsView, c: Change) -> int {
    match c {
        Change::InsertConfig(rec) => if insert_config_outcome(s, rec) is Ok { 1 } else { 0 },
        Change::DeleteConfig(id) => if delete_config_outcome(s, id) is Ok { -1 } else { 0 },
        _ => 0,
    }
}

/// By how many the change `c` makes the portals more.
pub open spec fn portal_gain(s: PortalsView, c: Change) -> int {
    match c {
        Change::InsertPortal(p) => if insert_portal_outcome(s, p) is Ok { 1 } else { 0 },
        Change::DeletePortal(index) => if delete_portal_outcome(s, index) is Ok { -1 } else { 0 },
        _ => 0,
    }
}

/// Successful inserts minus successful deletes of configurations, over the
/// changes `cs` made in order on `s`.
pub open spec fn config_gain_all(s: PortalsView, cs: Seq<Change>) -> int
    decreases cs.len(),
{
    if cs.len() == 0 {
        0
    } else {
        config_gain_all(s, cs.drop_last()) + config_gain(apply_all(s, cs.drop_last()), cs.last())
    }
}

/// Successful inserts minus successful deletes of portals, over the changes
/// `cs` made in order on `s`.
pub open spec fn portal_gain_all(s: PortalsView, cs: Seq<Change>) -> int
    decreases cs.len(),
{
    if cs.len() == 0 {
        0
    } else {
        portal_gain_all(s, cs.drop_last()) + portal_gain(apply_all(s, cs.drop_last()), cs.last())
    }
}

/// After any run of changes the store is well-formed, and of each kind it
/// holds as many records as it had, plus the inserts that succeeded, minus
/// the deletes that succeeded.
pub proof fn law_after_changes(s: PortalsView, cs: Seq<Change>)
    requires
        well_formed(s),
    ensures
        well_formed(apply_all(s, cs)),
        apply_all(s, cs).configs.len() == s.configs.len() + config_gain_all(s, cs),
        apply_all(s, cs).portals.len() == s.portals.len() + portal_gain_all(s, cs),
    decreases cs.len(),
{
    if cs.len() > 0 {
        law_after_changes(s, cs.drop_last());
        let before = apply_all(s, cs.drop_last());
        match cs.last() {
            Change::InsertConfig(rec) => {
                law_config_operations_keep_well_formed(before, rec.id, rec);
                law_counts(before, rec.id, 0, rec, arbitrary());
            },
            Change::UpdateConfig(id, patch) => {
                law_config_operations_keep_well_formed(before, id, patch);
                law_counts(before, id, 0, patch, arbitrary());
            },
            Change::DeleteConfig(id) => {
                law_config_operations_keep_well_formed(before, id, arbitrary());
                law_counts(before, id, 0, arbitrary(), arbitrary());
            },
            Change::InsertPortal(p) => {
                law_portal_operations_keep_well_formed(before, p.index, p);
                law_counts(before, 0, p.index, arbitrary(), p);
            },
            Change::UpdatePortal(index, patch) => {
                law_portal_operations_keep_well_formed(before, index, patch);
                law_counts(before, 0, index, arbitrary(), patch);
            },
            Change::DeletePortal(index) => {
                law_portal_operations_keep_well_formed(before, index, arbitrary());
                law_counts(before, 0, index, arbitrary(), arbitrary());
            },
        }
    }
}

/// The configurations and portals of the registry.
pub struct PortalStore {
    configs: Vec<PortalConfig>,
    portals: Vec<Portal>,
}

impl View for PortalStore {
    type V = PortalsView;

    closed spec fn view(&self) -> PortalsView {
        PortalsView {
            configs: Seq::new(self.configs@.len(), |i: int| self.configs@[i]@),
            portals: self.portals@,
        }
    }
}

impl PortalStore {
    /// The store's invariant: see [`well_formed`].
    pub open spec fn wf(&self) -> bool {
        well_formed(self@)
    }

    /// An empty store.
    pub fn new() -> (r: PortalStore)
        ensures
            r@.configs == Seq::<ConfigView>::empty(),
            r@.portals == Seq::<Portal>::empty(),
            r.wf(),
    {
        let r = PortalStore { configs: Vec::new(), portals: Vec::new() };
        assert(r@.configs =~= Seq::<ConfigView>::empty());
        r
    }

    fn find_config(&self, id: u128) -> (r: Option<usize>)
        ensures
            match r {
                Some(i) => i < self@.configs.len() && self@.configs[i as int].id == id,
                None => !has_config(self@.configs, id),
            },
    {
        let mut i: usize = 0;
        while i < self.configs.len()
            invariant
                i <= self.configs@.len(),
                forall|k: int| 0 <= k < i ==> (#[trigger] self@.configs[k]).id != id,
            decreases self.configs@.len() - i,
        {
            if self.configs[i].id == id {
                return Some(i);
            }
            i += 1;
        }
        None
    }

    fn find_portal(&self, index: u32) -> (r: Option<usize>)
        ensures
            match r {
                Some(i) => i < self@.portals.len() && self@.portals[i as int].index == index,
                None => !has_portal(self@.portals, index),
            },
    {
        let mut i: usize = 0;
        while i < self.portals.len()
            invariant
                i <= self.portals@.len(),
                forall|k: int| 0 <= k < i ==> (#[trigger] self@.portals[k]).index != index,
            decreases self.portals@.len() - i,
        {
            if self.portals[i].index == index {
                return Some(i);
            }
            i += 1;
        }
        None
    }

    fn config_in_use(&self, id: u128) -> (r: bool)
        ensures
            r == is_referenced(self@.portals, id),
    {
        let mut i: usize = 0;
        while i < self.portals.len()
            invariant
                i <= self.portals@.len(),
                forall|k: int| 0 <= k < i ==> (#[trigger] self@.portals[k]).configId != id,
            decreases self.portals@.len() - i,
        {
            if self.portals[i].configId == id {
                return true;
            }
            i += 1;
        }
        false
    }

    /// Adds the configuration `rec` unless its identifier is taken.
    pub fn insert_config(&mut self, rec: PortalConfig) -> (r: Result<u128, Error>)
        requires
            old(self).wf(),
        ensures
            final(self).wf(),
            r == insert_config_outcome(old(self)@, rec@),
            final(self)@ == after_insert_config(old(self)@, rec@),
    {
        if self.find_config(rec.id).is_some() {
            return Err(Error::Conflict);
        }
        let id = rec.id;
        self.configs.push(rec);
        assert(self@.configs =~= old(self)@.configs.push(rec@));
        assert(self@.portals == old(self)@.portals);
        assert forall|a: int, b: int| 0 <= a < b < self@.configs.len() implies (
        #[trigger] self@.configs[a]).id != (#[trigger] self@.configs[b]).id by {
            assert(self@.configs[a] == old(self)@.configs[a]);
            if b < old(self)@.configs.len() {
                assert(old(self)@.configs[a].id != old(self)@.configs[b].id);
            }
        }
        assert forall|i: int| 0 <= i < self@.portals.len() implies has_config(
            self@.configs,
            (#[trigger] self@.portals[i]).configId,
        ) by {
            let k = config_index(old(self)@.configs, self@.portals[i].configId);
            assert(has_config(old(self)@.configs, old(self)@.portals[i].configId));
            assert(self@.configs[k] == old(self)@.configs[k]);
        }
        Ok(id)
    }

    /// A copy of the configuration named `id`.
    pub fn get_config(&self, id: u128) -> (r: Result<PortalConfig, Error>)
        requires
            self.wf(),
        ensures
            match r {
                Ok(v) => get_config_outcome(self@, id) == Ok::<ConfigView, Error>(v@),
                Err(e) => get_config_outcome(self@, id) == Err::<ConfigView, Error>(e),
            },
    {
        match self.find_config(id) {
            Some(i) => {
                proof {
                    lemma_config_index(self@, id, i as int);
                }
                Ok(self.configs[i].copy())
            },
            None => Err(Error::NotFound),
        }
    }

    /// Copies of all configurations, in insertion order.
    pub fn list_configs(&self) -> (r: Vec<PortalConfig>)
        ensures
            r@.len() == self@.configs.len(),
            forall|i: int| 0 <= i < r@.len() ==> (#[trigger] r@[i])@ == self@.configs[i],
    {
        let mut out: Vec<PortalConfig> = Vec::new();
        let mut i: usize = 0;
        while i < self.configs.len()
            invariant
                i <= self.configs@.len(),
                out@.len() == i,
                forall|k: int| 0 <= k < i ==> (#[trigger] out@[k])@ == self@.configs[k],
            decreases self.configs@.len() - i,
        {
            out.push(self.configs[i].copy());
            i += 1;
        }
        out
    }

    /// Replaces the fields of the configuration named `id` by those of
    /// `patch`. The identifier stays; the one in `patch` is not read.
    pub fn update_config(&mut self, id: u128, patch: PortalConfig) -> (r: Result<
        PortalConfig,
        Error,
    >)
        requires
            old(self).wf(),
        ensures
            final(self).wf(),
            match r {
                Ok(v) => update_config_outcome(old(self)@, id, patch@) == Ok::<ConfigView, Error>(
                    v@,
                ),
                Err(e) => update_config_outcome(old(self)@, id, patch@) == Err::<
                    ConfigView,
                    Error,
                >(e),
            },
            final(self)@ == after_update_config(old(self)@, id, patch@),
    {
        let i = match self.find_config(id) {
            Some(i) => i,
            None => {
                return Err(Error::NotFound);
            },
        };
        proof {
            lemma_config_index(self@, id, i as int);
        }
        let stored = PortalConfig { id, name: patch.name };
        let back = stored.copy();
        self.configs.set(i, stored);
        assert(self@.configs =~= old(self)@.configs.update(i as int, config_with_id(id, patch@)));
        assert(self@.portals == old(self)@.portals);
        assert forall|a: int, b: int| 0 <= a < b < self@.configs.len() implies (
        #[trigger] self@.configs[a]).id != (#[trigger] self@.configs[b]).id by {
            assert(old(self)@.configs[a].id != old(self)@.configs[b].id);
        }
        assert forall|k: int| 0 <= k < self@.portals.len() implies has_config(
            self@.configs,
            (#[trigger] self@.portals[k]).configId,
        ) by {
            let c = config_index(old(self)@.configs, self@.portals[k].configId);
            assert(has_config(old(self)@.configs, old(self)@.portals[k].configId));
            assert(self@.configs[c].id == old(self)@.configs[c].id);
        }
        Ok(back)
    }

    /// Removes the configuration named `id`, unless a portal uses it.
    pub fn delete_config(&mut self, id: u128) -> (r: Result<(), Error>)
        requires
            old(self).wf(),
        ensures
            final(self).wf(),
            r == delete_config_outcome(old(self)@, id),
            final(self)@ == after_delete_config(old(self)@, id),
    {
        let i = match self.find_config(id) {
            Some(i) => i,
            None => {
                return Err(Error::NotFound);
            },
        };
        if self.config_in_use(id) {
            return Err(Error::ReferentialConflict);
        }
        proof {
            lemma_config_index(self@, id, i as int);
        }
        let _ = self.configs.remove(i);
        assert(self@.configs =~= old(self)@.configs.remove(i as int));
        assert(self@.portals == old(self)@.portals);
        assert forall|k: int| 0 <= k < self@.portals.len() implies has_config(
            self@.configs,
            (#[trigger] self@.portals[k]).configId,
        ) by {
            let c = config_index(old(self)@.configs, self@.portals[k].configId);
            assert(has_config(old(self)@.configs, old(self)@.portals[k].configId));
            assert(old(self)@.portals[k].configId != id);
            let c1 = if c < i { c } else { c - 1 };
            assert(self@.configs[c1] == old(self)@.configs[c]);
        }
        Ok(())
    }

    /// Adds the portal `p` unless its index is taken or its configuration
    /// does not exist.
    pub fn insert_portal(&mut self, p: Portal) -> (r: Result<u32, Error>)
        requires
            old(self).wf(),
        ensures
            final(self).wf(),
            r == insert_portal_outcome(old(self)@, p),
            final(self)@ == after_insert_portal(old(self)@, p),
    {
        if self.find_portal(p.index).is_some() {
            return Err(Error::Conflict);
        }
        if self.find_config(p.configId).is_none() {
            return Err(Error::Conflict);
        }
        self.portals.push(p);
        assert(self@.configs =~= old(self)@.configs);
        assert forall|k: int| 0 <= k < self@.portals.len() implies has_config(
            self@.configs,
            (#[trigger] self@.portals[k]).configId,
        ) by {
            if k < old(self)@.portals.len() {
                assert(self@.portals[k] == old(self)@.portals[k]);
            }
        }
        Ok(p.index)
    }

    /// The portal with the index `index`.
    pub fn get_portal(&self, index: u32) -> (r: Result<Portal, Error>)
        requires
            self.wf(),
        ensures
            r == get_portal_outcome(self@, index),
    {
        match self.find_portal(index) {
            Some(i) => {
                proof {
                    lemma_portal_position(self@, index, i as int);
                }
                Ok(self.portals[i])
            },
            None => Err(Error::NotFound),
        }
    }

    /// All portals, in insertion order.
    pub fn list_portals(&self) -> (r: Vec<Portal>)
        ensures
            r@ == self@.portals,
    {
        let mut out: Vec<Portal> = Vec::new();
        let mut i: usize = 0;
        while i < self.portals.len()
            invariant
                i <= self.portals@.len(),
                out@ == self.portals@.subrange(0, i as int),
            decreases self.portals@.len() - i,
        {
            out.push(self.portals[i]);
            assert(out@ =~= self.portals@.subrange(0, i + 1));
            i += 1;
        }
        assert(out@ =~= self.portals@);
        out
    }

    /// Replaces the fields of the portal `index` by those of `patch`, which
    /// must name an existing configuration. The index stays; the one in
    /// `patch` is not read.
    pub fn update_portal(&mut self, index: u32, patch: Portal) -> (r: Result<Portal, Error>)
        requires
            old(self).wf(),
        ensures
            final(self).wf(),
            r == update_portal_outcome(old(self)@, index, patch),
            final(self)@ == after_update_portal(old(self)@, index, patch),
    {
        let i = match self.find_portal(index) {
            Some(i) => i,
            None => {
                return Err(Error::NotFound);
            },
        };
        if self.find_config(patch.configId).is_none() {
            return Err(Error::Conflict);
        }
        proof {
            lemma_portal_position(self@, index, i as int);
        }
        let stored = Portal {
            index,
            frameBlockId: patch.frameBlockId,
            lightWithItemId: patch.lightWithItemId,
            color_b: patch.color_b,
            color_g: patch.color_g,
            color_r: patch.color_r,
            configId: patch.configId,
        };
        self.portals.set(i, stored);
        assert(self@.configs =~= old(self)@.configs);
        assert forall|k: int| 0 <= k < self@.portals.len() implies has_config(
            self@.configs,
            (#[trigger] self@.portals[k]).configId,
        ) by {
            if k != i {
                assert(self@.portals[k] == old(self)@.portals[k]);
            }
        }
        assert forall|a: int, b: int| 0 <= a < b < self@.portals.len() implies (
        #[trigger] self@.portals[a]).index != (#[trigger] self@.portals[b]).index by {
            assert(old(self)@.portals[a].index != old(self)@.portals[b].index);
        }
        Ok(stored)
    }

    /// Removes the portal with the index `index`.
    pub fn delete_portal(&mut self, index: u32) -> (r: Result<(), Error>)
        requires
            old(self).wf(),
        ensures
            final(self).wf(),
            r == delete_portal_outcome(old(self)@, index),
            final(self)@ == after_delete_portal(old(self)@, index),
    {
        match self.find_portal(index) {
            Some(i) => {
                proof {
                    lemma_portal_position(self@, index, i as int);
                }
                let _ = self.portals.remove(i);
                assert(self@.configs =~= old(self)@.configs);
                assert forall|k: int| 0 <= k < self@.portals.len() implies has_config(
                    self@.configs,
                    (#[trigger] self@.portals[k]).configId,
                ) by {
                    let k0 = if k < i { k } else { k + 1 };
                    assert(self@.portals[k] == old(self)@.portals[k0]);
                }
                assert forall|a: int, b: int| 0 <= a < b < self@.portals.len() implies (
                #[trigger] self@.portals[a]).index != (#[trigger] self@.portals[b]).index by {
                    let a0 = if a < i { a } else { a + 1 };
                    let b0 = if b < i { b } else { b + 1 };
                    assert(self@.portals[a] == old(self)@.portals[a0]);
                    assert(self@.portals[b] == old(self)@.portals[b0]);
                    assert(old(self)@.portals[a0].index != old(self)@.portals[b0].index);
                }
                Ok(())
            },
            None => Err(Error::NotFound),
        }
    }
}

} // verus!
