//! Protocol constants: permission bits, operation codes, event and state
//! enumerations, create modes, and the classification of reply XIDs.

use vstd::prelude::*;

verus! {

/// The scheme name of the predefined world ACL.
pub const WORLD: &'static str = "world";

/// The scheme name of IP-based ACL entries.
pub const IP: &'static str = "ip";

/// The scheme name of digest ACL entries.
pub const DIGEST: &'static str = "digest";

/// The scheme name of the super-user digest.
pub const SUPER: &'static str = "super";

/// The fixed id carried by the world scheme.
pub const ANYONE: &'static str = "anyone";

/// Version argument that matches any node version.
pub const IGNORE_VERSION: i32 = -1;

/// The five permission bits, plus the mask holding all of them.
#[derive(Clone, Copy, PartialEq, Eq, Structural, Debug)]
pub enum Perms {
    Read,
    Write,
    Create,
    Delete,
    ACL,
    All,
}

impl Perms {
    /// The bit (or mask) this permission occupies in an ACL entry.
    pub open spec fn spec_code(self) -> i32 {
        match self {
            Perms::Read => 1,
            Perms::Write => 2,
            Perms::Create => 4,
            Perms::Delete => 8,
            Perms::ACL => 16,
            Perms::All => 31,
        }
    }

    pub fn code(self) -> (r: i32)
        ensures
            r == self.spec_code(),
    {
        match self {
            Perms::Read => 1,
            Perms::Write => 2,
            Perms::Create => 4,
            Perms::Delete => 8,
            Perms::ACL => 16,
            Perms::All => 31,
        }
    }
}

/// A version condition for conditional operations: a concrete version, or
/// none, which matches any.
#[derive(Clone, Copy, PartialEq, Eq, Structural, Debug)]
pub enum VersionType {
    Version(i32),
    NoVersion,
}

impl VersionType {
    /// The wire form: the version itself, or `-1` for no condition.
    pub open spec fn spec_code(self) -> i32 {
        match self {
            VersionType::Version(v) => v,
            VersionType::NoVersion => IGNORE_VERSION,
        }
    }

    pub fn code(self) -> (r: i32)
        ensures
            r == self.spec_code(),
    {
        match self {
            VersionType::Version(v) => v,
            VersionType::NoVersion => IGNORE_VERSION,
        }
    }
}

/// The watcher kinds a remove request can name.
#[derive(Clone, Copy, PartialEq, Eq, Structural, Debug)]
pub enum WatcherType {
    Children,
    Data,
    Any,
}

impl WatcherType {
    pub open spec fn spec_code(self) -> i32 {
        match self {
            WatcherType::Children => 1,
            WatcherType::Data => 2,
            WatcherType::Any => 3,
        }
    }

    pub fn code(self) -> (r: i32)
        ensures
            r == self.spec_code(),
    {
        match self {
            WatcherType::Children => 1,
            WatcherType::Data => 2,
            WatcherType::Any => 3,
        }
    }
}

/// Event types carried by server notifications.
#[derive(Clone, Copy, PartialEq, Eq, Structural, Debug)]
pub enum EventType {
    NoEvent,
    NodeCreated,
    NodeDeleted,
    NodeDataChanged,
    NodeChildrenChanged,
    DataWatchRemoved,
    ChildWatchRemoved,
    PersistentWatchRemoved,
}

impl EventType {
    pub open spec fn spec_code(self) -> i32 {
        match self {
            EventType::NoEvent => -1i32,
            EventType::NodeCreated => 1,
            EventType::NodeDeleted => 2,
            EventType::NodeDataChanged => 3,
            EventType::NodeChildrenChanged => 4,
            EventType::DataWatchRemoved => 5,
            EventType::ChildWatchRemoved => 6,
            EventType::PersistentWatchRemoved => 7,
        }
    }

    pub fn code(self) -> (r: i32)
        ensures
            r == self.spec_code(),
    {
        match self {
            EventType::NoEvent => -1i32,
            EventType::NodeCreated => 1,
            EventType::NodeDeleted => 2,
            EventType::NodeDataChanged => 3,
            EventType::NodeChildrenChanged => 4,
            EventType::DataWatchRemoved => 5,
            EventType::ChildWatchRemoved => 6,
            EventType::PersistentWatchRemoved => 7,
        }
    }

    /// Decodes a wire code; unknown codes are refused.
    pub fn from_code(code: i32) -> (r: Option<EventType>)
        ensures
            (match r {
                Some(e) => e.spec_code() == code,
                None => forall|e: EventType| e.spec_code() != code,
            }),
    {
        match code {
            -1 => Some(EventType::NoEvent),
            1 => Some(EventType::NodeCreated),
            2 => Some(EventType::NodeDeleted),
            3 => Some(EventType::NodeDataChanged),
            4 => Some(EventType::NodeChildrenChanged),
            5 => Some(EventType::DataWatchRemoved),
            6 => Some(EventType::ChildWatchRemoved),
            7 => Some(EventType::PersistentWatchRemoved),
            _ => None,
        }
    }
}

/// Server-side connection states reported in notifications.
#[derive(Clone, Copy, PartialEq, Eq, Structural, Debug)]
pub enum KeeperState {
    Disconnected,
    SyncConnected,
    AuthFailed,
    ConnectedReadOnly,
    SaslAuthenticated,
    Expired,
    Closed,
}

impl KeeperState {
    pub open spec fn spec_code(self) -> i32 {
        match self {
            KeeperState::Disconnected => 0,
            KeeperState::SyncConnected => 3,
            KeeperState::AuthFailed => 4,
            KeeperState::ConnectedReadOnly => 5,
            KeeperState::SaslAuthenticated => 6,
            KeeperState::Expired => -112i32,
            KeeperState::Closed => 7,
        }
    }

    pub fn code(self) -> (r: i32)
        ensures
            r == self.spec_code(),
    {
        match self {
            KeeperState::Disconnected => 0,
            KeeperState::SyncConnected => 3,
            KeeperState::AuthFailed => 4,
            KeeperState::ConnectedReadOnly => 5,
            KeeperState::SaslAuthenticated => 6,
            KeeperState::Expired => -112i32,
            KeeperState::Closed => 7,
        }
    }

    /// Decodes a wire code; unknown codes are refused.
    pub fn from_code(code: i32) -> (r: Option<KeeperState>)
        ensures
            (match r {
                Some(k) => k.spec_code() == code,
                None => forall|k: KeeperState| k.spec_code() != code,
            }),
    {
        match code {
            0 => Some(KeeperState::Disconnected),
            3 => Some(KeeperState::SyncConnected),
            4 => Some(KeeperState::AuthFailed),
            5 => Some(KeeperState::ConnectedReadOnly),
            6 => Some(KeeperState::SaslAuthenticated),
            -112 => Some(KeeperState::Expired),
            7 => Some(KeeperState::Closed),
            _ => None,
        }
    }
}

/// The two persistent watcher registration modes.
#[derive(Clone, Copy, PartialEq, Eq, Structural, Debug)]
pub enum AddWatchMode {
    Persistent,
    PersistentRecursive,
}

impl AddWatchMode {
    pub open spec fn spec_code(self) -> i32 {
        match self {
            AddWatchMode::Persistent => 0,
            AddWatchMode::PersistentRecursive => 1,
        }
    }

    pub fn code(self) -> (r: i32)
        ensures
            r == self.spec_code(),
    {
        match self {
            AddWatchMode::Persistent => 0,
            AddWatchMode::PersistentRecursive => 1,
        }
    }
}

/// Client session states.
#[derive(Clone, Copy, PartialEq, Eq, Structural, Debug)]
pub enum States {
    Connecting,
    Associating,
    Connected,
    ConnectedReadOnly,
    Closed,
    AuthFailed,
    NotConnected,
}

impl States {
    /// A session is alive until it is closed or authentication has failed.
    pub fn is_alive(&self) -> (r: bool)
        ensures
            r == (*self != States::Closed && *self != States::AuthFailed),
    {
        *self != States::Closed && *self != States::AuthFailed
    }

    /// A session is connected in either read-write or read-only mode.
    pub fn is_connected(&self) -> (r: bool)
        ensures
            r == (*self == States::Connected || *self == States::ConnectedReadOnly),
    {
        *self == States::Connected || *self == States::ConnectedReadOnly
    }
}

/// Request operation codes.
#[derive(Clone, Copy, PartialEq, Eq, Structural, Debug)]
pub enum OpCode {
    Notification,
    Create,
    Delete,
    Exists,
    GetData,
    SetData,
    GetACL,
    SetACL,
    GetChildren,
    Sync,
    Ping,
    GetChildren2,
    Check,
    Multi,
    Create2,
    ReConfig,
    CheckWatches,
    RemoveWatches,
    CreateContainer,
    DeleteContainer,
    CreateTTL,
    MultiRead,
    Auth,
    SetWatches,
    Sasl,
    GetEphemerals,
    GetAllChildrenNumber,
    SetWatches2,
    AddWatch,
    CreateSession,
    CloseSession,
    Error,
}

impl OpCode {
    pub open spec fn spec_code(self) -> i32 {
        match self {
            OpCode::Notification => 0,
            OpCode::Create => 1,
            OpCode::Delete => 2,
            OpCode::Exists => 3,
            OpCode::GetData => 4,
            OpCode::SetData => 5,
            OpCode::GetACL => 6,
            OpCode::SetACL => 7,
            OpCode::GetChildren => 8,
            OpCode::Sync => 9,
            OpCode::Ping => 11,
            OpCode::GetChildren2 => 12,
            OpCode::Check => 13,
            OpCode::Multi => 14,
            OpCode::Create2 => 15,
            OpCode::ReConfig => 16,
            OpCode::CheckWatches => 17,
            OpCode::RemoveWatches => 18,
            OpCode::CreateContainer => 19,
            OpCode::DeleteContainer => 20,
            OpCode::CreateTTL => 21,
            OpCode::MultiRead => 22,
            OpCode::Auth => 100,
            OpCode::SetWatches => 101,
            OpCode::Sasl => 102,
            OpCode::GetEphemerals => 103,
            OpCode::GetAllChildrenNumber => 104,
            OpCode::SetWatches2 => 105,
            OpCode::AddWatch => 106,
            OpCode::CreateSession => -10i32,
            OpCode::CloseSession => -11i32,
            OpCode::Error => -1i32,
        }
    }

    pub fn code(self) -> (r: i32)
        ensures
            r == self.spec_code(),
    {
        match self {
            OpCode::Notification => 0,
            OpCode::Create => 1,
            OpCode::Delete => 2,
            OpCode::Exists => 3,
            OpCode::GetData => 4,
            OpCode::SetData => 5,
            OpCode::GetACL => 6,
            OpCode::SetACL => 7,
            OpCode::GetChildren => 8,
            OpCode::Sync => 9,
            OpCode::Ping => 11,
            OpCode::GetChildren2 => 12,
            OpCode::Check => 13,
            OpCode::Multi => 14,
            OpCode::Create2 => 15,
            OpCode::ReConfig => 16,
            OpCode::CheckWatches => 17,
            OpCode::RemoveWatches => 18,
            OpCode::CreateContainer => 19,
            OpCode::DeleteContainer => 20,
            OpCode::CreateTTL => 21,
            OpCode::MultiRead => 22,
            OpCode::Auth => 100,
            OpCode::SetWatches => 101,
            OpCode::Sasl => 102,
            OpCode::GetEphemerals => 103,
            OpCode::GetAllChildrenNumber => 104,
            OpCode::SetWatches2 => 105,
            OpCode::AddWatch => 106,
            OpCode::CreateSession => -10i32,
            OpCode::CloseSession => -11i32,
            OpCode::Error => -1i32,
        }
    }
}

/// Whether an operation changes replicated state or only reads it.
#[derive(Clone, Copy, PartialEq, Eq, Structural, Debug)]
pub enum OpKind {
    Transaction,
    Read,
}

/// The kind of node a create request asks for.
#[derive(Clone, Copy, PartialEq, Eq, Structural, Debug)]
pub enum CreateMode {
    Persistent,
    Ephemeral,
    PersistentSequential,
    EphemeralSequential,
    Container,
    PersistentWithTTL,
    PersistentSequentialWithTTL,
}

impl CreateMode {
    pub fn is_container(&self) -> (r: bool)
        ensures
            r == (*self == CreateMode::Container),
    {
        *self == CreateMode::Container
    }

    /// The flags value carried in a create request body.
    pub open spec fn spec_code(self) -> i32 {
        match self {
            CreateMode::Persistent => 0,
            CreateMode::Ephemeral => 1,
            CreateMode::PersistentSequential => 2,
            CreateMode::EphemeralSequential => 3,
            CreateMode::Container => 4,
            CreateMode::PersistentWithTTL => 5,
            CreateMode::PersistentSequentialWithTTL => 6,
        }
    }

    pub fn code(self) -> (r: i32)
        ensures
            r == self.spec_code(),
    {
        match self {
            CreateMode::Persistent => 0,
            CreateMode::Ephemeral => 1,
            CreateMode::PersistentSequential => 2,
            CreateMode::EphemeralSequential => 3,
            CreateMode::Container => 4,
            CreateMode::PersistentWithTTL => 5,
            CreateMode::PersistentSequentialWithTTL => 6,
        }
    }
}

/// The classification of a reply by its XID: the reserved negative values
/// mark notifications and internal replies, everything else answers an
/// outstanding request.
#[derive(Clone, Copy, PartialEq, Eq, Structural, Debug)]
pub enum XidType {
    Notification,
    Ping,
    AuthPacket,
    SetWatches,
    Response,
}

/// XID reserved for server notifications.
pub const NOTIFICATION_XID: i32 = -1;

/// XID reserved for ping replies.
pub const PING_XID: i32 = -2;

/// XID reserved for authentication replies.
pub const AUTH_XID: i32 = -4;

/// XID reserved for set-watches replies.
pub const SET_WATCHES_XID: i32 = -8;

impl XidType {
    /// How a reply carrying `xid` is routed.
    pub open spec fn spec_classify(xid: i32) -> XidType {
        if xid == NOTIFICATION_XID {
            XidType::Notification
        } else if xid == PING_XID {
            XidType::Ping
        } else if xid == AUTH_XID {
            XidType::AuthPacket
        } else if xid == SET_WATCHES_XID {
            XidType::SetWatches
        } else {
            XidType::Response
        }
    }

    pub fn classify(xid: i32) -> (r: XidType)
        ensures
            r == XidType::spec_classify(xid),
    {
        if xid == NOTIFICATION_XID {
            XidType::Notification
        } else if xid == PING_XID {
            XidType::Ping
        } else if xid == AUTH_XID {
            XidType::AuthPacket
        } else if xid == SET_WATCHES_XID {
            XidType::SetWatches
        } else {
            XidType::Response
        }
    }
}

} // verus!
