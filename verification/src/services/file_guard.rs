use vstd::prelude::*;
use vstd::string::*;
use crate::text::{decimal, decimal_text};

verus! {

/// Whether a copy is kept beside a file before each change of it.
#[derive(Clone, Copy, Debug, PartialEq, Eq, Structural)]
pub struct BackupConfig {
    pub auto_backup_enabled: bool,
}

impl Default for BackupConfig {
    fn default() -> (r: Self)
        ensures
            !r.auto_backup_enabled,
    {
        BackupConfig { auto_backup_enabled: false }
    }
}

/// One copy of a file that was made before the file was changed.
#[derive(Debug, PartialEq, Eq)]
pub struct TempBackupEntry {
    pub original_path: String,
    pub temp_path: String,
    pub created_at: String,
    /// The operation that changed the file.
    pub operation: String,
}

/// One copy of a file, as contracts speak of it.
pub struct TempBackupEntryView {
    pub original_path: Seq<char>,
    pub temp_path: Seq<char>,
    pub created_at: Seq<char>,
    pub operation: Seq<char>,
}

impl View for TempBackupEntry {
    type V = TempBackupEntryView;

    open spec fn view(&self) -> TempBackupEntryView {
        TempBackupEntryView {
            original_path: self.original_path@,
            temp_path: self.temp_path@,
            created_at: self.created_at@,
            operation: self.operation@,
        }
    }
}

impl Clone for TempBackupEntry {
    fn clone(&self) -> (r: Self)
        ensures
            r@ == self@,
    {
        TempBackupEntry {
            original_path: self.original_path.clone(),
            temp_path: self.temp_path.clone(),
            created_at: self.created_at.clone(),
            operation: self.operation.clone(),
        }
    }
}

/// The views of a list of copies, in order.
pub open spec fn backups_view(backups: Seq<TempBackupEntry>) -> Seq<TempBackupEntryView> {
    Seq::new(backups.len(), |i: int| backups[i]@)
}

/// `SystemTime::now`, `SystemTime::duration_since` with `UNIX_EPOCH` and
/// `Duration::as_secs`: the seconds since the start of 1970 by the clock of
/// the machine, zero for a clock that stands before it. Nothing is promised
/// of the number.
#[verifier::external_body]
pub(crate) fn unix_timestamp() -> u64 {
    std::time::SystemTime::now().duration_since(std::time::UNIX_EPOCH).unwrap_or_default().as_secs()
}

/// The time now as it is written behind the name of a copy: the seconds
/// since the start of 1970 in decimal digits.
pub fn formatted_timestamp() -> (r: String)
    ensures
        exists|secs: u64| r@ == decimal(secs as nat),
{
    let secs = unix_timestamp();
    let text = decimal_text(secs);
    assert(text@ == decimal(secs as nat));
    text
}

/// The name of the copy of a file in the directory of temporary copies.
pub open spec fn temp_backup_name_of(file_name: Seq<char>, timestamp: u64) -> Seq<char> {
    file_name + "_"@ + decimal(timestamp as nat) + ".bak"@
}

/// The name of the copy of a file in the directory of temporary copies:
/// the file's name, the time of the copy in seconds, and `.bak`.
pub fn temp_backup_name(file_name: &str, timestamp: u64) -> (r: String)
    ensures
        r@ == temp_backup_name_of(file_name@, timestamp),
{
    let mut name = file_name.to_owned();
    name.append("_");
    name.append(decimal_text(timestamp).as_str());
    name.append(".bak");
    name
}

/// The record of a temporary copy that was made at `timestamp`.
pub fn temp_backup_entry(file_path: &str, temp_path: &str, timestamp: u64, operation: &str) -> (r:
    TempBackupEntry)
    ensures
        r@ == (TempBackupEntryView {
            original_path: file_path@,
            temp_path: temp_path@,
            created_at: decimal(timestamp as nat),
            operation: operation@,
        }),
{
    TempBackupEntry {
        original_path: file_path.to_owned(),
        temp_path: temp_path.to_owned(),
        created_at: decimal_text(timestamp),
        operation: operation.to_owned(),
    }
}

/// The path of the copy that is kept beside a file: the file's path, then
/// `.ccbak` and the time of the copy.
pub fn auto_backup_path(file_path: &str, timestamp: &str) -> (r: String)
    ensures
        r@ == file_path@ + ".ccbak"@ + timestamp@,
{
    let mut path = file_path.to_owned();
    path.append(".ccbak");
    path.append(timestamp);
    path
}

} // verus!
