//! The records and the collection that holds them.

use vstd::prelude::*;

verus! {

/// A named bucket that servers are filed under.
#[derive(Debug, PartialEq, Eq)]
pub struct Group {
    pub id: String,
    pub name: String,
}

/// What a [`Group`] is in contracts.
pub struct GroupView {
    pub id: Seq<char>,
    pub name: Seq<char>,
}

impl View for Group {
    type V = GroupView;

    open spec fn view(&self) -> GroupView {
        GroupView { id: self.id@, name: self.name@ }
    }
}

impl Clone for Group {
    fn clone(&self) -> (copy: Group)
        ensures
            copy@ == self@,
    {
        Group { id: self.id.clone(), name: self.name.clone() }
    }
}

/// One remote-login target, with what is needed to reach it.
#[derive(Debug, PartialEq, Eq)]
pub struct Server {
    pub id: String,
    pub name: String,
    pub username: String,
    pub host: String,
    pub port: u16,
    /// `password` or `key`.
    pub auth_type: String,
    /// For `key`, the path of the key file; unused for `password`.
    pub auth_info: String,
    /// The id of the group this server is filed under.
    pub group_id: String,
}

/// What a [`Server`] is in contracts.
pub struct ServerView {
    pub id: Seq<char>,
    pub name: Seq<char>,
    pub username: Seq<char>,
    pub host: Seq<char>,
    pub port: u16,
    pub auth_type: Seq<char>,
    pub auth_info: Seq<char>,
    pub group_id: Seq<char>,
}

impl ServerView {
    /// The same server under another id.
    pub open spec fn with_id(self, id: Seq<char>) -> ServerView {
        ServerView { id, ..self }
    }
}

impl View for Server {
    type V = ServerView;

    open spec fn view(&self) -> ServerView {
        ServerView {
            id: self.id@,
            name: self.name@,
            username: self.username@,
            host: self.host@,
            port: self.port,
            auth_type: self.auth_type@,
            auth_info: self.auth_info@,
            group_id: self.group_id@,
        }
    }
}

impl Clone for Server {
    fn clone(&self) -> (copy: Server)
        ensures
            copy@ == self@,
    {
        Server {
            id: self.id.clone(),
            name: self.name.clone(),
            username: self.username.clone(),
            host: self.host.clone(),
            port: self.port,
            auth_type: self.auth_type.clone(),
            auth_info: self.auth_info.clone(),
            group_id: self.group_id.clone(),
        }
    }
}

/// The complete collection of groups and servers, in insertion order.
#[derive(Debug, PartialEq, Eq)]
pub struct Dataset {
    pub groups: Vec<Group>,
    pub servers: Vec<Server>,
}

/// What a [`Dataset`] is in contracts: two sequences of record views.
pub struct DatasetView {
    pub groups: Seq<GroupView>,
    pub servers: Seq<ServerView>,
}

/// The views of a run of groups, in order.
pub open spec fn group_views(groups: Seq<Group>) -> Seq<GroupView> {
    groups.map_values(|g: Group| g@)
}

/// The views of a run of servers, in order.
pub open spec fn server_views(servers: Seq<Server>) -> Seq<ServerView> {
    servers.map_values(|s: Server| s@)
}

impl View for Dataset {
    type V = DatasetView;

    open spec fn view(&self) -> DatasetView {
        DatasetView { groups: group_views(self.groups@), servers: server_views(self.servers@) }
    }
}

} // verus!
