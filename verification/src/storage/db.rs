//! Opening the database: the schema-version check and where sequence
//! numbering resumes.
use vstd::prelude::*;
use crate::bytes::{be32, be_bytes_u32, be_u32, be_u64};
use crate::sth::be64;
use crate::storage::types::{is_corruption, Error};

verus! {

/// The newest schema version this code reads and writes.
pub const CURRENT_SCHEMA_VERSION: u32 = 1;

/// What opening does about the stored schema version.
pub enum SchemaCheck {
    /// A new database: store these bytes as its version.
    Initialise([u8; 4]),
    /// An existing database of a version this code reads.
    Compatible(u32),
}

/// Checks the stored schema version (big-endian `u32`): a missing version
/// is initialised to the current one; a value of another length is
/// corruption; a newer version than this code supports is refused.
pub fn check_schema_version(stored: Option<&[u8]>) -> (r: Result<SchemaCheck, Error>)
    ensures
        stored is None ==> (r matches Ok(SchemaCheck::Initialise(b)) && b@ == be32(
            CURRENT_SCHEMA_VERSION,
        )),
        stored matches Some(v) ==> (v@.len() != 4 ==> (r matches Err(e) && is_corruption(
            e,
            "bad schema_version length"@,
        ))),
        stored matches Some(v) ==> (v@.len() == 4 ==> exists|found: u32|
            #[trigger] be32(found) == v@ && if found > CURRENT_SCHEMA_VERSION {
                (r matches Err(Error::SchemaMismatch { found: f, supported: s }) && f == found && s
                    == CURRENT_SCHEMA_VERSION)
            } else {
                (r matches Ok(SchemaCheck::Compatible(c)) && c == found)
            }),
{
    match stored {
        None => Ok(SchemaCheck::Initialise(be_bytes_u32(CURRENT_SCHEMA_VERSION))),
        Some(v) => {
            let version = match be_u32(v) {
                Some(x) => x,
                None => {
                    return Err(Error::Corruption("bad schema_version length".to_owned()));
                },
            };
            if version > CURRENT_SCHEMA_VERSION {
                Err(Error::SchemaMismatch { found: version, supported: CURRENT_SCHEMA_VERSION })
            } else {
                Ok(SchemaCheck::Compatible(version))
            }
        },
    }
}

/// The next sequence number, from the last key of the log (big-endian
/// `u64`): 0 for an empty log, else one past the last stored entry.
pub fn next_seq_after(last_key: Option<&[u8]>) -> (r: Result<u64, Error>)
    requires
        !(last_key matches Some(k) && k@ == be64(u64::MAX)),
    ensures
        last_key is None ==> r == Ok::<u64, Error>(0),
        last_key matches Some(k) ==> (k@.len() != 8 ==> (r matches Err(e) && is_corruption(
            e,
            "bad seq key length"@,
        ))),
        last_key matches Some(k) ==> (k@.len() == 8 ==> (r matches Ok(n) && n >= 1 && be64(
            (n - 1) as u64,
        ) == k@)),
{
    match last_key {
        None => Ok(0),
        Some(k) => match be_u64(k) {
            Some(last) => {
                if last == u64::MAX {
                    assert(false);
                }
                Ok(last + 1)
            },
            None => Err(Error::Corruption("bad seq key length".to_owned())),
        },
    }
}

} // verus!
