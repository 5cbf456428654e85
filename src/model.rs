//! The model record and the requests that create and delete one.

use vstd::prelude::*;
use crate::stamp::{fresh_id, is_uuid_char, now_millis};

verus! {

/// An immutable record: a caller-supplied name, version and payload, with an
/// id and a creation time (milliseconds since the epoch) set by the store.
#[derive(Clone, Debug)]
pub struct Model {
    pub id: String,
    pub name: String,
    pub version: String,
    pub data: String,
    pub create_time: i64,
}

/// The body of a create request.
#[derive(Clone, Debug)]
pub struct CreateModelRequest {
    pub name: String,
    pub version: String,
    pub data: String,
}

/// The body of a delete request.
#[derive(Clone, Debug)]
pub struct DeleteModelRequest {
    pub id: String,
}

/// Whether `id` has the shape of a generated identifier: the hyphenated
/// text form of a version 4 UUID.
pub open spec fn is_generated_id(id: Seq<char>) -> bool {
    &&& id.len() == 36
    &&& forall|i: int| 0 <= i < id.len() ==> is_uuid_char(#[trigger] id[i])
    &&& id[8] == '-' && id[13] == '-' && id[18] == '-' && id[23] == '-'
    &&& id[14] == '4'
}

impl Model {
    /// A new record holding the given fields, with a freshly drawn id and the
    /// current time.
    pub fn create(name: String, version: String, data: String) -> (r: Model)
        ensures
            r.name == name,
            r.version == version,
            r.data == data,
            is_generated_id(r.id@),
    {
        let id = fresh_id();
        let create_time = now_millis();
        Model { id, name, version, data, create_time }
    }

    /// A copy of this record, field for field.
    pub fn copied(&self) -> (r: Model)
        ensures
            r == *self,
    {
        Model {
            id: self.id.clone(),
            name: self.name.clone(),
            version: self.version.clone(),
            data: self.data.clone(),
            create_time: self.create_time,
        }
    }
}

} // verus!
