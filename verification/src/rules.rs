//! The rules of the collection, and what each operation makes of it, stated
//! on the mathematical model.

use vstd::prelude::*;
use crate::error::{ErrorView, Record, ViolationView};
use crate::model::{DatasetView, GroupView, ServerView};

verus! {

/// No two places of `ids` hold the same id.
pub open spec fn distinct(ids: Seq<Seq<char>>) -> bool {
    forall|i: int, j: int| 0 <= i < j < ids.len() ==> ids[i] != ids[j]
}

/// `i` is the first place of `ids` that holds `id`.
pub open spec fn first_at(ids: Seq<Seq<char>>, id: Seq<char>, i: int) -> bool {
    &&& 0 <= i < ids.len()
    &&& ids[i] == id
    &&& forall|j: int| 0 <= j < i ==> ids[j] != id
}

/// The first place of `ids` that holds `id`, where there is one.
pub open spec fn position(ids: Seq<Seq<char>>, id: Seq<char>) -> int {
    choose|i: int| first_at(ids, id, i)
}

/// `j` is the first place of `ids` whose id also stands at an earlier place.
pub open spec fn first_repeat_at(ids: Seq<Seq<char>>, j: int) -> bool {
    &&& 0 <= j < ids.len()
    &&& ids.take(j).contains(ids[j])
    &&& distinct(ids.take(j))
}

/// The first place of `ids` whose id also stands at an earlier place, where
/// there is one.
pub open spec fn first_repeat(ids: Seq<Seq<char>>) -> int {
    choose|j: int| first_repeat_at(ids, j)
}

/// The ids of a run of groups, in order.
pub open spec fn ids_of_groups(groups: Seq<GroupView>) -> Seq<Seq<char>> {
    groups.map_values(|g: GroupView| g.id)
}

/// The ids of a run of servers, in order.
pub open spec fn ids_of_servers(servers: Seq<ServerView>) -> Seq<Seq<char>> {
    servers.map_values(|s: ServerView| s.id)
}

/// The test that a server is not filed under the group `id`.
pub open spec fn filed_elsewhere(id: Seq<char>) -> spec_fn(ServerView) -> bool {
    |s: ServerView| s.group_id != id
}

impl DatasetView {
    /// The collection without any record.
    pub open spec fn empty() -> DatasetView {
        DatasetView { groups: Seq::empty(), servers: Seq::empty() }
    }

    /// The ids of the groups, in order.
    pub open spec fn group_ids(self) -> Seq<Seq<char>> {
        ids_of_groups(self.groups)
    }

    /// The ids of the servers, in order.
    pub open spec fn server_ids(self) -> Seq<Seq<char>> {
        ids_of_servers(self.servers)
    }

    /// Some group has this id.
    pub open spec fn has_group(self, id: Seq<char>) -> bool {
        self.group_ids().contains(id)
    }

    /// Some server has this id.
    pub open spec fn has_server(self, id: Seq<char>) -> bool {
        self.server_ids().contains(id)
    }

    /// Every server is filed under a group that the collection holds.
    pub open spec fn references_resolve(self) -> bool {
        forall|k: int|
            0 <= k < self.servers.len() ==> self.has_group(#[trigger] self.servers[k].group_id)
    }

    /// `k` is the first server filed under a group that the collection does
    /// not hold.
    pub open spec fn first_dangling_at(self, k: int) -> bool {
        &&& 0 <= k < self.servers.len()
        &&& !self.has_group(self.servers[k].group_id)
        &&& forall|m: int| 0 <= m < k ==> self.has_group(#[trigger] self.servers[m].group_id)
    }

    /// The first server filed under a group that the collection does not
    /// hold, where there is one.
    pub open spec fn first_dangling(self) -> int {
        choose|k: int| self.first_dangling_at(k)
    }

    /// The collection is consistent: ids are unique within the groups and
    /// within the servers, and every server's group exists.
    pub open spec fn wf(self) -> bool {
        &&& distinct(self.group_ids())
        &&& distinct(self.server_ids())
        &&& self.references_resolve()
    }

    /// The rule that the collection breaks, if it breaks one: a repeated
    /// group id before a repeated server id before a missing group, and of
    /// each kind the first in order.
    pub open spec fn violation(self) -> Option<ViolationView> {
        if !distinct(self.group_ids()) {
            let ids = self.group_ids();
            Some(ViolationView::DuplicateGroupId(ids[first_repeat(ids)]))
        } else if !distinct(self.server_ids()) {
            let ids = self.server_ids();
            Some(ViolationView::DuplicateServerId(ids[first_repeat(ids)]))
        } else if !self.references_resolve() {
            Some(ViolationView::UnknownGroup(self.servers[self.first_dangling()].group_id))
        } else {
            None
        }
    }

    /// The servers that are not filed under the group `id`, in order.
    pub open spec fn servers_outside(self, id: Seq<char>) -> Seq<ServerView> {
        self.servers.filter(filed_elsewhere(id))
    }

    /// Filing a new group: refused where its id is taken, else it comes last.
    pub open spec fn add_group(self, group: GroupView) -> Result<DatasetView, ErrorView> {
        if self.has_group(group.id) {
            Err(ErrorView::Validation(ViolationView::DuplicateGroupId(group.id)))
        } else {
            Ok(DatasetView { groups: self.groups.push(group), servers: self.servers })
        }
    }

    /// Filing a new server: refused where its group is missing or its id is
    /// taken, else it comes last.
    pub open spec fn add_server(self, server: ServerView) -> Result<DatasetView, ErrorView> {
        if !self.has_group(server.group_id) {
            Err(ErrorView::Validation(ViolationView::UnknownGroup(server.group_id)))
        } else if self.has_server(server.id) {
            Err(ErrorView::Validation(ViolationView::DuplicateServerId(server.id)))
        } else {
            Ok(DatasetView { groups: self.groups, servers: self.servers.push(server) })
        }
    }

    /// Replacing the group that has `group`'s id, in place.
    pub open spec fn update_group(self, group: GroupView) -> Result<DatasetView, ErrorView> {
        if !self.has_group(group.id) {
            Err(ErrorView::NotFound(Record::Group))
        } else {
            Ok(
                DatasetView {
                    groups: self.groups.update(position(self.group_ids(), group.id), group),
                    servers: self.servers,
                },
            )
        }
    }

    /// Replacing the server that has `server`'s id, in place: refused where
    /// no server has that id, or where the new group is missing.
    pub open spec fn update_server(self, server: ServerView) -> Result<DatasetView, ErrorView> {
        if !self.has_server(server.id) {
            Err(ErrorView::NotFound(Record::Server))
        } else if !self.has_group(server.group_id) {
            Err(ErrorView::Validation(ViolationView::UnknownGroup(server.group_id)))
        } else {
            Ok(
                DatasetView {
                    groups: self.groups,
                    servers: self.servers.update(position(self.server_ids(), server.id), server),
                },
            )
        }
    }

    /// Removing the group `id` together with every server filed under it.
    pub open spec fn delete_group(self, id: Seq<char>) -> Result<DatasetView, ErrorView> {
        if !self.has_group(id) {
            Err(ErrorView::NotFound(Record::Group))
        } else {
            Ok(
                DatasetView {
                    groups: self.groups.remove(position(self.group_ids(), id)),
                    servers: self.servers_outside(id),
                },
            )
        }
    }

    /// Removing the server `id`.
    pub open spec fn delete_server(self, id: Seq<char>) -> Result<DatasetView, ErrorView> {
        if !self.has_server(id) {
            Err(ErrorView::NotFound(Record::Server))
        } else {
            Ok(
                DatasetView {
                    groups: self.groups,
                    servers: self.servers.remove(position(self.server_ids(), id)),
                },
            )
        }
    }
}

/// At most one place is the first to hold an id.
pub proof fn lemma_first_at_unique(ids: Seq<Seq<char>>, id: Seq<char>, i: int, j: int)
    requires
        first_at(ids, id, i),
        first_at(ids, id, j),
    ensures
        i == j,
{
    if i < j {
        assert(ids[i] != id);
    } else if j < i {
        assert(ids[j] != id);
    }
}

/// The place found first is the position.
pub proof fn lemma_position(ids: Seq<Seq<char>>, id: Seq<char>, i: int)
    requires
        first_at(ids, id, i),
    ensures
        position(ids, id) == i,
        ids.contains(id),
{
    lemma_first_at_unique(ids, id, i, position(ids, id));
}

/// An id that occurs has a first place, and that is its position.
pub proof fn lemma_position_of_held(ids: Seq<Seq<char>>, id: Seq<char>)
    requires
        ids.contains(id),
    ensures
        first_at(ids, id, position(ids, id)),
{
    let held = choose|i: int| 0 <= i < ids.len() && ids[i] == id;
    lemma_first_before(ids, id, held);
}

/// An id that occurs at `held` has a first place.
proof fn lemma_first_before(ids: Seq<Seq<char>>, id: Seq<char>, held: int)
    requires
        0 <= held < ids.len(),
        ids[held] == id,
    ensures
        exists|i: int| first_at(ids, id, i),
    decreases held,
{
    if exists|j: int| 0 <= j < held && ids[j] == id {
        let j = choose|j: int| 0 <= j < held && ids[j] == id;
        lemma_first_before(ids, id, j);
    } else {
        assert(first_at(ids, id, held));
    }
}

/// At most one place is the first to repeat an earlier id.
pub proof fn lemma_first_repeat_unique(ids: Seq<Seq<char>>, i: int, j: int)
    requires
        first_repeat_at(ids, i),
        first_repeat_at(ids, j),
    ensures
        i == j,
{
    if i < j {
        let earlier = choose|e: int| 0 <= e < ids.take(i).len() && ids.take(i)[e] == ids[i];
        assert(ids.take(j)[earlier] == ids.take(j)[i]);
    } else if j < i {
        let earlier = choose|e: int| 0 <= e < ids.take(j).len() && ids.take(j)[e] == ids[j];
        assert(ids.take(i)[earlier] == ids.take(i)[j]);
    }
}

/// The place found to repeat first is the first repeat, and the ids are not
/// distinct.
pub proof fn lemma_first_repeat(ids: Seq<Seq<char>>, j: int)
    requires
        first_repeat_at(ids, j),
    ensures
        first_repeat(ids) == j,
        !distinct(ids),
{
    lemma_repeat_breaks_distinct(ids, j);
    lemma_first_repeat_unique(ids, j, first_repeat(ids));
}

/// An id that stands at an earlier place too keeps the ids from being
/// distinct.
proof fn lemma_repeat_breaks_distinct(ids: Seq<Seq<char>>, j: int)
    requires
        0 <= j < ids.len(),
        ids.take(j).contains(ids[j]),
    ensures
        !distinct(ids),
{
    let earlier = choose|e: int| 0 <= e < ids.take(j).len() && ids.take(j)[e] == ids[j];
    assert(ids[earlier] == ids[j]);
}

/// An id whose first place is its own stands at no earlier place.
pub proof fn lemma_absent_before(ids: Seq<Seq<char>>, j: int)
    requires
        0 <= j < ids.len(),
        forall|i: int| 0 <= i < j ==> ids[i] != ids[j],
    ensures
        !ids.take(j).contains(ids[j]),
{
    let shorter = ids.take(j);
    assert forall|i: int| 0 <= i < shorter.len() implies shorter[i] != ids[j] by {
        assert(shorter[i] == ids[i]);
    }
}

/// Distinct ids stay distinct when one that none of them equals joins them.
pub proof fn lemma_distinct_next(ids: Seq<Seq<char>>, j: int)
    requires
        0 <= j < ids.len(),
        distinct(ids.take(j)),
        !ids.take(j).contains(ids[j]),
    ensures
        distinct(ids.take(j + 1)),
{
    let shorter = ids.take(j);
    let longer = ids.take(j + 1);
    assert forall|a: int, b: int| 0 <= a < b < longer.len() implies longer[a] != longer[b] by {
        if b < j {
            assert(shorter[a] != shorter[b]);
        } else {
            assert(shorter[a] == longer[a]);
        }
    }
}

/// Taking one id away from distinct ids leaves distinct ids that no longer
/// hold it.
pub proof fn lemma_remove_keeps_distinct(ids: Seq<Seq<char>>, at: int)
    requires
        distinct(ids),
        0 <= at < ids.len(),
    ensures
        distinct(ids.remove(at)),
        !ids.remove(at).contains(ids[at]),
{
    let rest = ids.remove(at);
    assert forall|a: int, b: int| 0 <= a < b < rest.len() implies rest[a] != rest[b] by {
        let a0 = if a < at { a } else { a + 1 };
        let b0 = if b < at { b } else { b + 1 };
        assert(ids[a0] != ids[b0]);
    }
    assert forall|a: int| 0 <= a < rest.len() implies rest[a] != ids[at] by {
        if a < at {
            assert(ids[a] != ids[at]);
        } else {
            assert(ids[at] != ids[a + 1]);
        }
    }
}

/// The server found to be the first whose group is missing is the first
/// dangling one, and not every reference resolves.
pub proof fn lemma_first_dangling(data: DatasetView, k: int)
    requires
        data.first_dangling_at(k),
    ensures
        data.first_dangling() == k,
        !data.references_resolve(),
{
    let other = data.first_dangling();
    if other < k {
        assert(data.has_group(data.servers[other].group_id));
    } else if k < other {
        assert(data.has_group(data.servers[k].group_id));
    }
}

} // verus!
