//! What holds of the operations taken together, proved on the model.

use vstd::prelude::*;
use crate::error::{ErrorView, Record, ViolationView};
use crate::model::{DatasetView, GroupView, ServerView};
use crate::rules::{
    distinct, filed_elsewhere, first_at, ids_of_servers, lemma_position, lemma_position_of_held,
    lemma_remove_keeps_distinct, position,
};

verus! {

/// Filtering a run of servers with distinct ids leaves distinct ids.
proof fn lemma_filter_keeps_distinct(servers: Seq<ServerView>, keep: spec_fn(ServerView) -> bool)
    requires
        distinct(ids_of_servers(servers)),
    ensures
        distinct(ids_of_servers(servers.filter(keep))),
    decreases servers.len(),
{
    reveal(Seq::filter);
    if servers.len() > 0 {
        let rest = servers.drop_last();
        let last = servers.last();
        let kept = rest.filter(keep);
        assert(distinct(ids_of_servers(rest))) by {
            assert forall|a: int, b: int| 0 <= a < b < rest.len() implies ids_of_servers(rest)[a]
                != ids_of_servers(rest)[b] by {
                assert(ids_of_servers(servers)[a] != ids_of_servers(servers)[b]);
            }
        }
        lemma_filter_keeps_distinct(rest, keep);
        if keep(last) {
            let all = kept.push(last);
            assert forall|a: int, b: int| 0 <= a < b < all.len() implies ids_of_servers(all)[a]
                != ids_of_servers(all)[b] by {
                if b < kept.len() {
                    assert(ids_of_servers(kept)[a] != ids_of_servers(kept)[b]);
                } else {
                    assert(kept.contains(kept[a]));
                    rest.lemma_filter_contains_rev(keep, kept[a]);
                    let at = choose|i: int| 0 <= i < rest.len() && rest[i] == kept[a];
                    let ids = ids_of_servers(servers);
                    assert(ids[at] != ids[servers.len() - 1]);
                }
            }
        }
    }
}

/// Filing a group keeps a consistent collection consistent.
pub proof fn law_add_group_keeps_rules(data: DatasetView, group: GroupView)
    requires
        data.wf(),
    ensures
        data.add_group(group) matches Ok(after) ==> after.wf(),
{
    if let Ok(after) = data.add_group(group) {
        assert(after.group_ids() =~= data.group_ids().push(group.id));
        assert forall|k: int| 0 <= k < after.servers.len() implies after.has_group(
            #[trigger] after.servers[k].group_id,
        ) by {
            let id = data.servers[k].group_id;
            assert(data.has_group(id));
            let at = choose|i: int| 0 <= i < data.group_ids().len() && data.group_ids()[i] == id;
            assert(after.group_ids()[at] == id);
        }
    }
}

/// Filing a server keeps a consistent collection consistent.
pub proof fn law_add_server_keeps_rules(data: DatasetView, server: ServerView)
    requires
        data.wf(),
    ensures
        data.add_server(server) matches Ok(after) ==> after.wf(),
{
    if let Ok(after) = data.add_server(server) {
        assert(after.server_ids() =~= data.server_ids().push(server.id));
        assert forall|k: int| 0 <= k < after.servers.len() implies after.has_group(
            #[trigger] after.servers[k].group_id,
        ) by {
            if k < data.servers.len() {
                assert(data.has_group(data.servers[k].group_id));
            }
        }
    }
}

/// An update of a group changes the one place that held its id, keeps every
/// id in its place, and leaves the servers alone.
pub proof fn law_update_group_touches_one_place(data: DatasetView, group: GroupView)
    ensures
        data.update_group(group) matches Ok(after) ==> {
            let at = position(data.group_ids(), group.id);
            &&& first_at(data.group_ids(), group.id, at)
            &&& after.groups.len() == data.groups.len()
            &&& after.groups[at] == group
            &&& forall|k: int|
                0 <= k < data.groups.len() && k != at ==> after.groups[k] == data.groups[k]
            &&& after.group_ids() == data.group_ids()
            &&& after.servers == data.servers
        },
{
    if let Ok(after) = data.update_group(group) {
        lemma_position_of_held(data.group_ids(), group.id);
        assert(after.group_ids() =~= data.group_ids());
    }
}

/// An update of a server changes the one place that held its id, keeps every
/// id in its place, and leaves the groups alone.
pub proof fn law_update_server_touches_one_place(data: DatasetView, server: ServerView)
    ensures
        data.update_server(server) matches Ok(after) ==> {
            let at = position(data.server_ids(), server.id);
            &&& first_at(data.server_ids(), server.id, at)
            &&& after.servers.len() == data.servers.len()
            &&& after.servers[at] == server
            &&& forall|k: int|
                0 <= k < data.servers.len() && k != at ==> after.servers[k] == data.servers[k]
            &&& after.server_ids() == data.server_ids()
            &&& after.groups == data.groups
        },
{
    if let Ok(after) = data.update_server(server) {
        lemma_position_of_held(data.server_ids(), server.id);
        assert(after.server_ids() =~= data.server_ids());
    }
}

/// An update of a group keeps a consistent collection consistent.
pub proof fn law_update_group_keeps_rules(data: DatasetView, group: GroupView)
    requires
        data.wf(),
    ensures
        data.update_group(group) matches Ok(after) ==> after.wf(),
{
    if let Ok(after) = data.update_group(group) {
        law_update_group_touches_one_place(data, group);
    }
}

/// An update of a server keeps a consistent collection consistent.
pub proof fn law_update_server_keeps_rules(data: DatasetView, server: ServerView)
    requires
        data.wf(),
    ensures
        data.update_server(server) matches Ok(after) ==> after.wf(),
{
    if let Ok(after) = data.update_server(server) {
        law_update_server_touches_one_place(data, server);
        let at = position(data.server_ids(), server.id);
        assert forall|k: int| 0 <= k < after.servers.len() implies after.has_group(
            #[trigger] after.servers[k].group_id,
        ) by {
            if k != at {
                assert(data.has_group(data.servers[k].group_id));
            }
        }
    }
}

/// Cascade: once a group is deleted, no server is filed under its id, every
/// server filed elsewhere is still held, and none has come in.
pub proof fn law_delete_group_cascades(data: DatasetView, id: Seq<char>)
    ensures
        data.delete_group(id) matches Ok(after) ==> {
            &&& forall|k: int| 0 <= k < after.servers.len() ==> after.servers[k].group_id != id
            &&& forall|k: int|
                0 <= k < after.servers.len() ==> data.servers.contains(after.servers[k])
            &&& forall|k: int|
                0 <= k < data.servers.len() && data.servers[k].group_id != id
                    ==> after.servers.contains(data.servers[k])
            &&& after.groups.len() == data.groups.len() - 1
        },
{
    if let Ok(after) = data.delete_group(id) {
        let keep = filed_elsewhere(id);
        lemma_position_of_held(data.group_ids(), id);
        assert forall|k: int| 0 <= k < after.servers.len() implies after.servers[k].group_id
            != id && data.servers.contains(after.servers[k]) by {
            data.servers.lemma_filter_pred(keep, k);
            assert(after.servers.contains(after.servers[k]));
            data.servers.lemma_filter_contains_rev(keep, after.servers[k]);
        }
        assert forall|k: int|
            0 <= k < data.servers.len() && data.servers[k].group_id
                != id implies after.servers.contains(data.servers[k]) by {
            data.servers.lemma_filter_contains(keep, k);
        }
    }
}

/// The deletion of a group keeps a consistent collection consistent, and the
/// id is then free.
pub proof fn law_delete_group_keeps_rules(data: DatasetView, id: Seq<char>)
    requires
        data.wf(),
    ensures
        data.delete_group(id) matches Ok(after) ==> after.wf() && !after.has_group(id),
{
    if let Ok(after) = data.delete_group(id) {
        let at = position(data.group_ids(), id);
        lemma_position_of_held(data.group_ids(), id);
        law_delete_group_cascades(data, id);
        assert(after.group_ids() =~= data.group_ids().remove(at));
        lemma_remove_keeps_distinct(data.group_ids(), at);
        lemma_filter_keeps_distinct(data.servers, filed_elsewhere(id));
        assert forall|k: int| 0 <= k < after.servers.len() implies after.has_group(
            #[trigger] after.servers[k].group_id,
        ) by {
            let wanted = after.servers[k].group_id;
            let before = choose|i: int|
                0 <= i < data.servers.len() && data.servers[i] == after.servers[k];
            assert(data.has_group(data.servers[before].group_id));
            let g = choose|g: int| 0 <= g < data.group_ids().len() && data.group_ids()[g] == wanted;
            let g1 = if g < at { g } else { g - 1 };
            assert(after.group_ids()[g1] == wanted);
        }
    }
}

/// The deletion of a server keeps a consistent collection consistent, takes
/// one server away and leaves the groups alone.
pub proof fn law_delete_server_keeps_rules(data: DatasetView, id: Seq<char>)
    requires
        data.wf(),
    ensures
        data.delete_server(id) matches Ok(after) ==> {
            &&& after.wf()
            &&& !after.has_server(id)
            &&& after.groups == data.groups
            &&& after.servers.len() == data.servers.len() - 1
        },
{
    if let Ok(after) = data.delete_server(id) {
        let at = position(data.server_ids(), id);
        lemma_position_of_held(data.server_ids(), id);
        assert(after.server_ids() =~= data.server_ids().remove(at));
        lemma_remove_keeps_distinct(data.server_ids(), at);
        assert forall|k: int| 0 <= k < after.servers.len() implies after.has_group(
            #[trigger] after.servers[k].group_id,
        ) by {
            let k0 = if k < at { k } else { k + 1 };
            assert(data.has_group(data.servers[k0].group_id));
        }
    }
}

/// A collection breaks a rule exactly when it is not consistent.
pub proof fn law_violation_iff_inconsistent(data: DatasetView)
    ensures
        data.violation() is None <==> data.wf(),
{
}

/// Integrity on create: a server whose group the collection does not hold is
/// refused, whatever its id.
pub proof fn law_server_needs_its_group(data: DatasetView, server: ServerView)
    requires
        !data.has_group(server.group_id),
    ensures
        data.add_server(server) == Err::<DatasetView, ErrorView>(
            ErrorView::Validation(ViolationView::UnknownGroup(server.group_id)),
        ),
{
}

/// Not found: an update or a deletion under an id that its collection does
/// not hold is refused as such.
pub proof fn law_unknown_id_is_not_found(
    data: DatasetView,
    group: GroupView,
    server: ServerView,
    id: Seq<char>,
)
    ensures
        !data.has_group(group.id) ==> data.update_group(group) == Err::<DatasetView, ErrorView>(
            ErrorView::NotFound(Record::Group),
        ),
        !data.has_server(server.id) ==> data.update_server(server) == Err::<
            DatasetView,
            ErrorView,
        >(ErrorView::NotFound(Record::Server)),
        !data.has_group(id) ==> data.delete_group(id) == Err::<DatasetView, ErrorView>(
            ErrorView::NotFound(Record::Group),
        ),
        !data.has_server(id) ==> data.delete_server(id) == Err::<DatasetView, ErrorView>(
            ErrorView::NotFound(Record::Server),
        ),
{
}

/// Id stability: a group filed under an unused id and then updated under
/// that id stands where it was filed, under the same id, with its name
/// replaced; nothing else has changed.
pub proof fn law_update_keeps_id(
    data: DatasetView,
    id: Seq<char>,
    name: Seq<char>,
    renamed: Seq<char>,
)
    requires
        !data.has_group(id),
    ensures
        data.add_group(GroupView { id, name }) matches Ok(filed) && filed.update_group(
            GroupView { id, name: renamed },
        ) matches Ok(after) && after.groups == data.groups.push(GroupView { id, name: renamed })
            && after.servers == data.servers,
{
    let filed = data.add_group(GroupView { id, name })->Ok_0;
    let last = data.groups.len() as int;
    assert(filed.group_ids() =~= data.group_ids().push(id));
    assert(first_at(filed.group_ids(), id, last));
    lemma_position(filed.group_ids(), id, last);
    let after = filed.update_group(GroupView { id, name: renamed })->Ok_0;
    assert(after.groups =~= data.groups.push(GroupView { id, name: renamed }));
}

/// No lost update: two servers with different unused ids, each filed under a
/// group that exists, are both held once both have been filed one after the
/// other, behind everything that was held before.
pub proof fn law_two_creates_both_survive(data: DatasetView, first: ServerView, second: ServerView)
    requires
        data.has_group(first.group_id),
        data.has_group(second.group_id),
        !data.has_server(first.id),
        !data.has_server(second.id),
        first.id != second.id,
    ensures
        data.add_server(first) matches Ok(one) && one.add_server(second) matches Ok(both)
            && both.servers == data.servers.push(first).push(second) && both.groups == data.groups,
{
    let one = data.add_server(first)->Ok_0;
    assert(one.server_ids() =~= data.server_ids().push(first.id));
    assert(!one.has_server(second.id)) by {
        if one.has_server(second.id) {
            let ids = one.server_ids();
            let at = choose|i: int| 0 <= i < ids.len() && ids[i] == second.id;
            if at < data.server_ids().len() {
                assert(data.server_ids()[at] == second.id);
            }
        }
    }
}

} // verus!
