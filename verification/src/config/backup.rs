//! Copies of the databases.

use vstd::prelude::*;
use crate::checkpoint::manifest;
use crate::checkpoint::manifest::is_same_path;
use crate::error;
use crate::error::{ErrorModel, StorageError};
use crate::git::arguments;
use crate::text;

verus! {

/// What is told of a finished copy.
pub struct DatabaseBackupInfo {
    pub database_path: String,
    pub archive_database_path: Option<String>,
    pub schema_version: i64,
    pub database_size_bytes: u64,
    pub archive_database_size_bytes: Option<u64>,
}

/// The mathematical form of what is told.
pub struct BackupModel {
    pub database_path: Seq<char>,
    pub archive_database_path: Option<Seq<char>>,
    pub schema_version: i64,
    pub database_size_bytes: u64,
    pub archive_database_size_bytes: Option<u64>,
}

impl DeepView for DatabaseBackupInfo {
    type V = BackupModel;

    open spec fn deep_view(&self) -> BackupModel {
        BackupModel {
            database_path: self.database_path@,
            archive_database_path: self.archive_database_path.deep_view(),
            schema_version: self.schema_version,
            database_size_bytes: self.database_size_bytes,
            archive_database_size_bytes: self.archive_database_size_bytes,
        }
    }
}

/// Reads the answer of the database to the question whether it is sound.
pub fn quick_check_connection(answer: &str) -> (r: Result<(), StorageError>)
    ensures
        error::result_view(r) == (if answer@ == "ok"@ {
            Ok(())
        } else {
            Err(error::failure("SQLite quick_check failed: "@ + answer@))
        }),
{
    let chars = text::chars_of(answer);
    if text::equals(chars.as_slice(), "ok") {
        return Ok(());
    }
    let mut reason = "SQLite quick_check failed: ".to_string();
    reason.append(answer);
    Err(StorageError::from_reason(reason.as_str()))
}

/// Says that a database is sound, or why it is not.
pub fn quick_check_database(answer: &str) -> (r: Result<String, StorageError>)
    ensures
        error::result_view(r) == (if answer@ == "ok"@ {
            Ok("ok"@)
        } else {
            Err(error::failure("SQLite quick_check failed: "@ + answer@))
        }),
{
    match quick_check_connection(answer) {
        Ok(_) => Ok("ok".to_string()),
        Err(e) => Err(e),
    }
}

/// Refuses to copy a database onto itself.
pub fn online_backup(source: &str, destination: &str) -> (r: Result<(), StorageError>)
    ensures
        error::result_view(r) == (if manifest::same_path(source@, destination@) {
            Err(error::invalid("Online backup destination must differ from source"@))
        } else {
            Ok(())
        }),
{
    if is_same_path(source, destination) {
        Err(StorageError::invalid_arg("Online backup destination must differ from source"))
    } else {
        Ok(())
    }
}

/// The files that a database keeps beside it.
pub fn remove_database_sidecars(path: &str) -> (out: Vec<String>)
    ensures
        out.deep_view() == seq![path@ + "-wal"@, path@ + "-shm"@, path@ + "-journal"@],
{
    let mut wal = path.to_string();
    wal.append("-wal");
    let mut shm = path.to_string();
    shm.append("-shm");
    let mut journal = path.to_string();
    journal.append("-journal");
    let out = arguments(&[wal.as_str(), shm.as_str(), journal.as_str()]);
    proof {
        assert(out.deep_view() =~= seq![path@ + "-wal"@, path@ + "-shm"@, path@ + "-journal"@]);
    }
    out
}

/// What is done after the database was copied: the archive is copied too,
/// or all is done.
pub enum BackupStep {
    CopyArchive { destination: String },
    Done(DatabaseBackupInfo),
}

/// The mathematical form of a step.
pub enum BackupStepModel {
    CopyArchive { destination: Seq<char> },
    Done(BackupModel),
}

impl DeepView for BackupStep {
    type V = BackupStepModel;

    open spec fn deep_view(&self) -> BackupStepModel {
        match self {
            BackupStep::CopyArchive { destination } => BackupStepModel::CopyArchive {
                destination: destination@,
            },
            BackupStep::Done(info) => BackupStepModel::Done(info.deep_view()),
        }
    }
}

/// What is done after the database was copied.
pub open spec fn after_copy(
    main_destination: Seq<char>,
    schema_version: i64,
    size: u64,
    with_archive: bool,
    archive_destination: Option<Seq<char>>,
    archive_size: Option<u64>,
) -> Result<BackupStepModel, ErrorModel> {
    let info = BackupModel {
        database_path: main_destination,
        archive_database_path: None,
        schema_version,
        database_size_bytes: size,
        archive_database_size_bytes: None,
    };
    if !with_archive {
        Ok(BackupStepModel::Done(info))
    } else {
        match (archive_destination, archive_size) {
            (None, _) => Err(error::invalid("Archive destination is required when enabled"@)),
            (Some(destination), None) => Ok(BackupStepModel::CopyArchive { destination }),
            (Some(destination), Some(_)) => Ok(
                BackupStepModel::Done(
                    BackupModel {
                        archive_database_path: Some(destination),
                        archive_database_size_bytes: archive_size,
                        ..info
                    },
                ),
            ),
        }
    }
}

/// What is done after the database was copied, given its size and schema
/// and, once it was copied, the size of the archive.
pub fn create_database_online_backup(
    main_destination: String,
    schema_version: i64,
    size: u64,
    include_archive: bool,
    archive_destination: Option<String>,
    archive_size: Option<u64>,
) -> (r: Result<BackupStep, StorageError>)
    ensures
        error::result_view(r) == after_copy(
            main_destination@,
            schema_version,
            size,
            include_archive,
            archive_destination.deep_view(),
            archive_size,
        ),
{
    if !include_archive {
        return Ok(
            BackupStep::Done(
                DatabaseBackupInfo {
                    database_path: main_destination,
                    archive_database_path: None,
                    schema_version,
                    database_size_bytes: size,
                    archive_database_size_bytes: None,
                },
            ),
        );
    }
    match (archive_destination, archive_size) {
        (None, _) => Err(StorageError::invalid_arg("Archive destination is required when enabled")),
        (Some(destination), None) => Ok(BackupStep::CopyArchive { destination }),
        (Some(destination), Some(_)) => Ok(
            BackupStep::Done(
                DatabaseBackupInfo {
                    database_path: main_destination,
                    archive_database_path: Some(destination),
                    schema_version,
                    database_size_bytes: size,
                    archive_database_size_bytes: archive_size,
                },
            ),
        ),
    }
}

} // verus!
