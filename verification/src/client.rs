//! The client: where its database is, and what it asks of it.
use crate::command::model::{OperationFilter, OperationOptions};
use crate::command::requests::{
    AlterRequest, Command, CompactRequest, CreateRequest, DropRequest, PermissionRequest,
    StatusRequest,
};
use crate::command::results::BackupArchive;
use crate::connection::{driver_of, place_named, ConnectionTarget, DriverKind};
use crate::error::Error;
use crate::text::owned;
use crate::value::JsonValue;
use vstd::prelude::*;

verus! {

/// A client of the database at a target. What it asks for is a command, which is handed to the
/// engine in this process or sent through a socket, as the target says.
#[derive(Debug, PartialEq, Eq)]
pub struct WardrobeClient {
    pub target: ConnectionTarget,
}

impl WardrobeClient {
    pub fn open(connection_string: &str) -> (r: Result<Self, Error>)
        ensures
            match (place_named(connection_string@), r) {
                (Ok(place), Ok(client)) => client.target@ == place,
                (Err(f), Err(e)) => e@ == f,
                _ => false,
            },
    {
        match ConnectionTarget::parse(connection_string) {
            Ok(target) => Ok(WardrobeClient { target }),
            Err(e) => Err(e),
        }
    }

    pub fn connection_target(&self) -> (r: &ConnectionTarget)
        ensures
            *r == self.target,
    {
        &self.target
    }

    pub fn driver_kind(&self) -> (r: DriverKind)
        ensures
            r == driver_of(self.target@),
    {
        self.target.driver_kind()
    }

    pub fn requires_embedded_engine(&self) -> (r: bool)
        ensures
            r == (driver_of(self.target@) == DriverKind::Embedded),
    {
        self.target.requires_embedded_engine()
    }

    pub fn uses_socket_transport(&self) -> (r: bool)
        ensures
            r == (driver_of(self.target@) != DriverKind::Embedded),
    {
        self.target.uses_socket_transport()
    }

    pub fn upsert(
        &self,
        payload: JsonValue,
        filter: OperationFilter,
        options: OperationOptions,
    ) -> (r: Command)
        ensures
            r == (Command::Upsert { payload, filter, options }),
    {
        Command::Upsert { payload, filter, options }
    }

    pub fn read(&self, filter: OperationFilter, options: OperationOptions) -> (r: Command)
        ensures
            r == (Command::Read { filter, options }),
    {
        Command::Read { filter, options }
    }

    pub fn count(&self, filter: OperationFilter, options: OperationOptions) -> (r: Command)
        ensures
            r == (Command::Count { filter, options }),
    {
        Command::Count { filter, options }
    }

    pub fn delete(&self, filter: OperationFilter, options: OperationOptions) -> (r: Command)
        ensures
            r == (Command::Delete { filter, options }),
    {
        Command::Delete { filter, options }
    }

    pub fn compact(&self, request: CompactRequest) -> (r: Command)
        ensures
            r == Command::Compact(request),
    {
        Command::Compact(request)
    }

    pub fn inspect(&self, filter: OperationFilter, options: OperationOptions) -> (r: Command)
        ensures
            r == (Command::Inspect { filter, options }),
    {
        Command::Inspect { filter, options }
    }

    pub fn backup(&self, source_path: &str) -> (r: Command)
        ensures
            r matches Command::Backup { source_path: p } && p@ == source_path@,
    {
        Command::Backup { source_path: owned(source_path) }
    }

    pub fn restore(&self, destination_path: &str, archive: BackupArchive) -> (r: Command)
        ensures
            r matches Command::Restore { destination_path: p, archive: a } && p@
                == destination_path@ && a == archive,
    {
        Command::Restore { destination_path: owned(destination_path), archive }
    }

    pub fn create(&self, request: CreateRequest) -> (r: Command)
        ensures
            r == Command::Create(request),
    {
        Command::Create(request)
    }

    pub fn alter(&self, request: AlterRequest) -> (r: Command)
        ensures
            r == Command::Alter(request),
    {
        Command::Alter(request)
    }

    pub fn drop(&self, request: DropRequest) -> (r: Command)
        ensures
            r == Command::Drop(request),
    {
        Command::Drop(request)
    }

    pub fn grant(&self, request: PermissionRequest) -> (r: Command)
        ensures
            r == Command::Grant(request),
    {
        Command::Grant(request)
    }

    pub fn revoke(&self, request: PermissionRequest) -> (r: Command)
        ensures
            r == Command::Revoke(request),
    {
        Command::Revoke(request)
    }

    pub fn status(&self, request: StatusRequest) -> (r: Command)
        ensures
            r == Command::Status(request),
    {
        Command::Status(request)
    }
}

} // verus!
