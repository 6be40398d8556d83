//! The operations of the store, each one step on a [`Dataset`] in memory.

use vstd::prelude::*;
use crate::error::{Error, ErrorView, Record, Violation, ViolationView};
use crate::ident::{fresh_id, is_uuid_text};
use crate::laws::{
    law_add_group_keeps_rules, law_add_server_keeps_rules, law_delete_group_cascades,
    law_delete_group_keeps_rules, law_delete_server_keeps_rules, law_update_group_keeps_rules,
    law_update_group_touches_one_place, law_update_server_keeps_rules,
    law_update_server_touches_one_place,
};
use crate::model::{group_views, server_views, Dataset, DatasetView, Group, Server, ServerView};
use crate::rules::{
    distinct, filed_elsewhere, first_at, lemma_absent_before, lemma_distinct_next,
    lemma_first_dangling, lemma_first_repeat, lemma_position,
};

verus! {

/// Filtering one server more: the views of the first `k + 1` servers, filtered,
/// are those of the first `k`, filtered, with the next one behind them where
/// it passes.
proof fn lemma_keep_step(servers: Seq<Server>, k: int, keep: spec_fn(ServerView) -> bool)
    requires
        0 <= k < servers.len(),
    ensures
        server_views(servers.take(k + 1)).filter(keep) == if keep(servers[k]@) {
            server_views(servers.take(k)).filter(keep).push(servers[k]@)
        } else {
            server_views(servers.take(k)).filter(keep)
        },
{
    assert(server_views(servers.take(k + 1)) =~= server_views(servers.take(k)).push(servers[k]@));
    server_views(servers.take(k)).lemma_filter_push(servers[k]@, keep);
}

impl Dataset {
    /// The collection without any record: what a store holds before its
    /// first save.
    pub fn new() -> (data: Dataset)
        ensures
            data@ == DatasetView::empty(),
            data@.wf(),
    {
        let data = Dataset { groups: Vec::new(), servers: Vec::new() };
        assert(data@.groups =~= Seq::empty());
        assert(data@.servers =~= Seq::empty());
        data
    }

    /// The groups, in order.
    pub fn get_groups(&self) -> (groups: Vec<Group>)
        ensures
            group_views(groups@) == self@.groups,
    {
        let mut groups: Vec<Group> = Vec::new();
        let mut i: usize = 0;
        while i < self.groups.len()
            invariant
                i <= self.groups.len(),
                group_views(groups@) == self@.groups.take(i as int),
            decreases self.groups.len() - i,
        {
            let copy = self.groups[i].clone();
            groups.push(copy);
            assert(group_views(groups@) =~= self@.groups.take(i as int).push(copy@));
            assert(group_views(groups@) =~= self@.groups.take(i + 1));
            i += 1;
        }
        assert(self@.groups.take(i as int) =~= self@.groups);
        groups
    }

    /// The servers, in order.
    pub fn get_servers(&self) -> (servers: Vec<Server>)
        ensures
            server_views(servers@) == self@.servers,
    {
        let mut servers: Vec<Server> = Vec::new();
        let mut i: usize = 0;
        while i < self.servers.len()
            invariant
                i <= self.servers.len(),
                server_views(servers@) == self@.servers.take(i as int),
            decreases self.servers.len() - i,
        {
            let copy = self.servers[i].clone();
            servers.push(copy);
            assert(server_views(servers@) =~= self@.servers.take(i as int).push(copy@));
            assert(server_views(servers@) =~= self@.servers.take(i + 1));
            i += 1;
        }
        assert(self@.servers.take(i as int) =~= self@.servers);
        servers
    }

    /// The place of the first group with this id.
    pub fn group_position(&self, id: &String) -> (found: Option<usize>)
        ensures
            match found {
                Some(i) => first_at(self@.group_ids(), id@, i as int),
                None => !self@.has_group(id@),
            },
    {
        let mut i: usize = 0;
        while i < self.groups.len()
            invariant
                i <= self.groups.len(),
                forall|j: int| 0 <= j < i ==> self@.group_ids()[j] != id@,
            decreases self.groups.len() - i,
        {
            if self.groups[i].id == *id {
                return Some(i);
            }
            i += 1;
        }
        None
    }

    /// The place of the first server with this id.
    pub fn server_position(&self, id: &String) -> (found: Option<usize>)
        ensures
            match found {
                Some(i) => first_at(self@.server_ids(), id@, i as int),
                None => !self@.has_server(id@),
            },
    {
        let mut i: usize = 0;
        while i < self.servers.len()
            invariant
                i <= self.servers.len(),
                forall|j: int| 0 <= j < i ==> self@.server_ids()[j] != id@,
            decreases self.servers.len() - i,
        {
            if self.servers[i].id == *id {
                return Some(i);
            }
            i += 1;
        }
        None
    }

    /// Files `group` as it stands, last in order, unless its id is taken.
    pub fn insert_group(&mut self, group: Group) -> (outcome: Result<(), Error>)
        ensures
            match old(self)@.add_group(group@) {
                Ok(after) => outcome is Ok && final(self)@ == after,
                Err(refusal) => outcome matches Err(e) && e@ == refusal && final(self)@ == old(
                    self,
                )@,
            },
            outcome is Ok <==> !old(self)@.has_group(group@.id),
            old(self)@.wf() ==> final(self)@.wf(),
    {
        proof {
            if self@.wf() {
                law_add_group_keeps_rules(self@, group@);
            }
        }
        match self.group_position(&group.id) {
            Some(_) => Err(Error::Validation(Violation::DuplicateGroupId(group.id))),
            None => {
                self.groups.push(group);
                assert(group_views(self.groups@) =~= group_views(old(self).groups@).push(group@));
                Ok(())
            },
        }
    }

    /// Files `server` as it stands, last in order, unless its group is
    /// missing or its id is taken.
    pub fn insert_server(&mut self, server: Server) -> (outcome: Result<(), Error>)
        ensures
            match old(self)@.add_server(server@) {
                Ok(after) => outcome is Ok && final(self)@ == after,
                Err(refusal) => outcome matches Err(e) && e@ == refusal && final(self)@ == old(
                    self,
                )@,
            },
            !old(self)@.has_group(server@.group_id) ==> {
                &&& outcome matches Err(e)
                &&& e@ == ErrorView::Validation(ViolationView::UnknownGroup(server@.group_id))
                &&& final(self)@ == old(self)@
            },
            outcome is Ok <==> old(self)@.has_group(server@.group_id) && !old(self)@.has_server(
                server@.id,
            ),
            old(self)@.wf() ==> final(self)@.wf(),
    {
        proof {
            if self@.wf() {
                law_add_server_keeps_rules(self@, server@);
            }
        }
        if self.group_position(&server.group_id).is_none() {
            return Err(Error::Validation(Violation::UnknownGroup(server.group_id)));
        }
        match self.server_position(&server.id) {
            Some(_) => Err(Error::Validation(Violation::DuplicateServerId(server.id))),
            None => {
                self.servers.push(server);
                assert(server_views(self.servers@) =~= server_views(old(self).servers@).push(
                    server@,
                ));
                Ok(())
            },
        }
    }

    /// Creates a group called `name` under a newly drawn id and files it last.
    ///
    /// The id is random. Should it be one that a group already has, nothing
    /// is filed and the id is reported as a duplicate.
    pub fn add_group(&mut self, name: String) -> (outcome: Result<Group, Error>)
        ensures
            match outcome {
                Ok(group) => {
                    &&& is_uuid_text(group@.id)
                    &&& group@.name == name@
                    &&& old(self)@.add_group(group@) == Ok::<DatasetView, ErrorView>(final(self)@)
                },
                Err(e) => {
                    &&& e@ matches ErrorView::Validation(ViolationView::DuplicateGroupId(id))
                    &&& is_uuid_text(id)
                    &&& old(self)@.has_group(id)
                    &&& final(self)@ == old(self)@
                },
            },
            old(self)@.groups.len() == 0 ==> outcome is Ok,
            old(self)@.wf() ==> final(self)@.wf(),
    {
        let group = Group { id: fresh_id(), name };
        let filed = group.clone();
        match self.insert_group(group) {
            Ok(()) => Ok(filed),
            Err(e) => Err(e),
        }
    }

    /// Creates a server from `server` under a newly drawn id, whatever id it
    /// came with, and files it last. The group it names must exist.
    ///
    /// The id is random. Should it be one that a server already has, nothing
    /// is filed and the id is reported as a duplicate.
    pub fn add_server(&mut self, server: Server) -> (outcome: Result<Server, Error>)
        ensures
            !old(self)@.has_group(server@.group_id) ==> {
                &&& outcome matches Err(e)
                &&& e@ == ErrorView::Validation(ViolationView::UnknownGroup(server@.group_id))
                &&& final(self)@ == old(self)@
            },
            old(self)@.has_group(server@.group_id) ==> match outcome {
                Ok(created) => {
                    &&& is_uuid_text(created@.id)
                    &&& created@ == server@.with_id(created@.id)
                    &&& old(self)@.add_server(created@) == Ok::<DatasetView, ErrorView>(
                        final(self)@,
                    )
                },
                Err(e) => {
                    &&& e@ matches ErrorView::Validation(ViolationView::DuplicateServerId(id))
                    &&& is_uuid_text(id)
                    &&& old(self)@.has_server(id)
                    &&& final(self)@ == old(self)@
                },
            },
            old(self)@.has_group(server@.group_id) && old(self)@.servers.len() == 0
                ==> outcome is Ok,
            old(self)@.wf() ==> final(self)@.wf(),
    {
        let mut server = server;
        server.id = fresh_id();
        let filed = server.clone();
        match self.insert_server(server) {
            Ok(()) => Ok(filed),
            Err(e) => Err(e),
        }
    }

    /// Puts `group` in the place of the group that has its id.
    pub fn update_group(&mut self, group: Group) -> (outcome: Result<(), Error>)
        ensures
            match old(self)@.update_group(group@) {
                Ok(after) => outcome is Ok && final(self)@ == after,
                Err(refusal) => outcome matches Err(e) && e@ == refusal && final(self)@ == old(
                    self,
                )@,
            },
            !old(self)@.has_group(group@.id) ==> {
                &&& outcome matches Err(e)
                &&& e@ == ErrorView::NotFound(Record::Group)
                &&& final(self)@ == old(self)@
            },
            outcome is Ok <==> old(self)@.has_group(group@.id),
            final(self)@.group_ids() == old(self)@.group_ids(),
            old(self)@.wf() ==> final(self)@.wf(),
    {
        proof {
            law_update_group_touches_one_place(self@, group@);
            if self@.wf() {
                law_update_group_keeps_rules(self@, group@);
            }
        }
        match self.group_position(&group.id) {
            None => Err(Error::NotFound(Record::Group)),
            Some(i) => {
                proof {
                    lemma_position(self@.group_ids(), group@.id, i as int);
                }
                self.groups[i] = group;
                assert(group_views(self.groups@) =~= group_views(old(self).groups@).update(
                    i as int,
                    group@,
                ));
                Ok(())
            },
        }
    }

    /// Puts `server` in the place of the server that has its id, provided
    /// that the group it names exists.
    pub fn update_server(&mut self, server: Server) -> (outcome: Result<(), Error>)
        ensures
            match old(self)@.update_server(server@) {
                Ok(after) => outcome is Ok && final(self)@ == after,
                Err(refusal) => outcome matches Err(e) && e@ == refusal && final(self)@ == old(
                    self,
                )@,
            },
            !old(self)@.has_server(server@.id) ==> {
                &&& outcome matches Err(e)
                &&& e@ == ErrorView::NotFound(Record::Server)
                &&& final(self)@ == old(self)@
            },
            outcome is Ok <==> old(self)@.has_server(server@.id) && old(self)@.has_group(
                server@.group_id,
            ),
            final(self)@.server_ids() == old(self)@.server_ids(),
            old(self)@.wf() ==> final(self)@.wf(),
    {
        proof {
            law_update_server_touches_one_place(self@, server@);
            if self@.wf() {
                law_update_server_keeps_rules(self@, server@);
            }
        }
        match self.server_position(&server.id) {
            None => Err(Error::NotFound(Record::Server)),
            Some(i) => {
                if self.group_position(&server.group_id).is_none() {
                    return Err(Error::Validation(Violation::UnknownGroup(server.group_id)));
                }
                proof {
                    lemma_position(self@.server_ids(), server@.id, i as int);
                }
                self.servers[i] = server;
                assert(server_views(self.servers@) =~= server_views(old(self).servers@).update(
                    i as int,
                    server@,
                ));
                Ok(())
            },
        }
    }

    /// Removes the server `id`.
    pub fn delete_server(&mut self, id: String) -> (outcome: Result<(), Error>)
        ensures
            match old(self)@.delete_server(id@) {
                Ok(after) => outcome is Ok && final(self)@ == after,
                Err(refusal) => outcome matches Err(e) && e@ == refusal && final(self)@ == old(
                    self,
                )@,
            },
            !old(self)@.has_server(id@) ==> {
                &&& outcome matches Err(e)
                &&& e@ == ErrorView::NotFound(Record::Server)
                &&& final(self)@ == old(self)@
            },
            outcome is Ok <==> old(self)@.has_server(id@),
            old(self)@.wf() ==> final(self)@.wf(),
    {
        proof {
            if self@.wf() {
                law_delete_server_keeps_rules(self@, id@);
            }
        }
        match self.server_position(&id) {
            None => Err(Error::NotFound(Record::Server)),
            Some(i) => {
                proof {
                    lemma_position(self@.server_ids(), id@, i as int);
                }
                self.servers.remove(i);
                assert(server_views(self.servers@) =~= server_views(old(self).servers@).remove(
                    i as int,
                ));
                Ok(())
            },
        }
    }

    /// Checks the collection against its rules and names the first one broken.
    pub fn validate(&self) -> (outcome: Result<(), Error>)
        ensures
            outcome is Ok <==> self@.wf(),
            match self@.violation() {
                None => outcome is Ok,
                Some(broken) => outcome matches Err(e) && e@ == ErrorView::Validation(broken),
            },
    {
        let ghost group_ids = self@.group_ids();
        let ghost server_ids = self@.server_ids();
        let mut j: usize = 0;
        while j < self.groups.len()
            invariant
                j <= self.groups.len(),
                group_ids == self@.group_ids(),
                distinct(group_ids.take(j as int)),
            decreases self.groups.len() - j,
        {
            match self.group_position(&self.groups[j].id) {
                Some(i) if i < j => {
                    proof {
                        assert(group_ids.take(j as int)[i as int] == group_ids[j as int]);
                        lemma_first_repeat(group_ids, j as int);
                    }
                    let id = self.groups[j].id.clone();
                    return Err(Error::Validation(Violation::DuplicateGroupId(id)));
                },
                _ => {},
            }
            proof {
                lemma_absent_before(group_ids, j as int);
                lemma_distinct_next(group_ids, j as int);
            }
            j += 1;
        }
        assert(group_ids.take(j as int) =~= group_ids);
        let mut j: usize = 0;
        while j < self.servers.len()
            invariant
                j <= self.servers.len(),
                server_ids == self@.server_ids(),
                distinct(self@.group_ids()),
                distinct(server_ids.take(j as int)),
            decreases self.servers.len() - j,
        {
            match self.server_position(&self.servers[j].id) {
                Some(i) if i < j => {
                    proof {
                        assert(server_ids.take(j as int)[i as int] == server_ids[j as int]);
                        lemma_first_repeat(server_ids, j as int);
                    }
                    let id = self.servers[j].id.clone();
                    return Err(Error::Validation(Violation::DuplicateServerId(id)));
                },
                _ => {},
            }
            proof {
                lemma_absent_before(server_ids, j as int);
                lemma_distinct_next(server_ids, j as int);
            }
            j += 1;
        }
        assert(server_ids.take(j as int) =~= server_ids);
        let mut k: usize = 0;
        while k < self.servers.len()
            invariant
                k <= self.servers.len(),
                distinct(self@.group_ids()),
                distinct(self@.server_ids()),
                forall|m: int| 0 <= m < k ==> self@.has_group(#[trigger] self@.servers[m].group_id),
            decreases self.servers.len() - k,
        {
            if self.group_position(&self.servers[k].group_id).is_none() {
                proof {
                    lemma_first_dangling(self@, k as int);
                }
                let id = self.servers[k].group_id.clone();
                return Err(Error::Validation(Violation::UnknownGroup(id)));
            }
            k += 1;
        }
        Ok(())
    }

    /// Takes `incoming` in place of what the store holds, provided that it
    /// keeps the rules.
    pub fn import_data(&mut self, incoming: Dataset) -> (outcome: Result<(), Error>)
        ensures
            match incoming@.violation() {
                None => outcome is Ok && final(self)@ == incoming@,
                Some(broken) => {
                    &&& outcome matches Err(e)
                    &&& e@ == ErrorView::Validation(broken)
                    &&& final(self)@ == old(self)@
                },
            },
            outcome is Ok <==> incoming@.wf(),
            old(self)@.wf() ==> final(self)@.wf(),
    {
        match incoming.validate() {
            Ok(()) => {
                *self = incoming;
                Ok(())
            },
            Err(e) => Err(e),
        }
    }

    /// Removes the group `id` and every server filed under it.
    pub fn delete_group(&mut self, id: String) -> (outcome: Result<(), Error>)
        ensures
            match old(self)@.delete_group(id@) {
                Ok(after) => outcome is Ok && final(self)@ == after,
                Err(refusal) => outcome matches Err(e) && e@ == refusal && final(self)@ == old(
                    self,
                )@,
            },
            !old(self)@.has_group(id@) ==> {
                &&& outcome matches Err(e)
                &&& e@ == ErrorView::NotFound(Record::Group)
                &&& final(self)@ == old(self)@
            },
            outcome is Ok <==> old(self)@.has_group(id@),
            outcome is Ok ==> forall|k: int|
                0 <= k < final(self)@.servers.len() ==> final(self)@.servers[k].group_id != id@,
            old(self)@.wf() ==> final(self)@.wf(),
    {
        proof {
            law_delete_group_cascades(self@, id@);
            if self@.wf() {
                law_delete_group_keeps_rules(self@, id@);
            }
        }
        match self.group_position(&id) {
            None => Err(Error::NotFound(Record::Group)),
            Some(i) => {
                proof {
                    lemma_position(self@.group_ids(), id@, i as int);
                }
                self.groups.remove(i);
                assert(group_views(self.groups@) =~= group_views(old(self).groups@).remove(
                    i as int,
                ));
                let mut all: Vec<Server> = Vec::new();
                std::mem::swap(&mut self.servers, &mut all);
                let ghost before = all@;
                let ghost keep = filed_elsewhere(id@);
                proof {
                    reveal(Seq::filter);
                    assert(server_views(before.take(0)) =~= Seq::<ServerView>::empty());
                }
                for server in it: all
                    invariant
                        it.seq() == before,
                        keep == filed_elsewhere(id@),
                        self.groups@ == old(self).groups@.remove(i as int),
                        server_views(self.servers@) == server_views(
                            before.take(it.index() as int),
                        ).filter(keep),
                {
                    proof {
                        lemma_keep_step(before, it.index() as int, keep);
                    }
                    if server.group_id != id {
                        self.servers.push(server);
                        assert(server_views(self.servers@) =~= server_views(
                            before.take(it.index() as int),
                        ).filter(keep).push(server@));
                    }
                }
                assert(before.take(before.len() as int) =~= before);
                Ok(())
            },
        }
    }
}

impl Clone for Dataset {
    fn clone(&self) -> (copy: Dataset)
        ensures
            copy@ == self@,
    {
        Dataset { groups: self.get_groups(), servers: self.get_servers() }
    }
}

} // verus!
