//! Where the configuration stands, and how a file of it is written: the first version is
//! kept beside it, and the new one takes its place in one step.

use vstd::prelude::*;

use crate::default_model;
use crate::text;

verus! {

/// `name` inside the directory `base`.
pub open spec fn path_in(base: Seq<char>, name: Seq<char>) -> Seq<char> {
    if base.len() == 0 || base.last() == '/' {
        base + name
    } else {
        base.push('/') + name
    }
}

/// The directory of the configuration: the one that is given, else one under the home
/// directory.
pub open spec fn home_of(given: Option<String>, home: Option<String>) -> Result<
    Seq<char>,
    Seq<char>,
> {
    match given {
        Some(h) => Ok(h@),
        None => match home {
            Some(h) => Ok(path_in(h@, ".dsh"@)),
            None => Err("无 HOME"@),
        },
    }
}

/// A file in the directory of the configuration.
pub open spec fn file_of(
    given: Option<String>,
    home: Option<String>,
    name: Seq<char>,
) -> Result<Seq<char>, Seq<char>> {
    match home_of(given, home) {
        Ok(h) => Ok(path_in(h, name)),
        Err(e) => Err(e),
    }
}

/// The result is what is wanted.
pub open spec fn path_is(
    r: Result<String, String>,
    want: Result<Seq<char>, Seq<char>>,
) -> bool {
    match r {
        Ok(p) => want == Ok::<Seq<char>, Seq<char>>(p@),
        Err(e) => want == Err::<Seq<char>, Seq<char>>(e@),
    }
}

/// `name` inside the directory `base`.
pub fn join_path(base: &str, name: &str) -> (r: String)
    ensures
        r@ == path_in(base@, name@),
{
    let mut out = base.to_owned();
    let v = text::chars_of(base);
    if v.len() > 0 && v[v.len() - 1] != '/' {
        out.push('/');
    }
    out.append(name);
    out
}

/// The directory of the configuration.
pub fn dsh_home(given: &Option<String>, home: &Option<String>) -> (r: Result<String, String>)
    ensures
        path_is(r, home_of(*given, *home)),
{
    match given {
        Some(h) => Ok(h.clone()),
        None => match home {
            Some(h) => Ok(join_path(h.as_str(), ".dsh")),
            None => Err("无 HOME".to_owned()),
        },
    }
}

fn home_file(given: &Option<String>, home: &Option<String>, name: &str) -> (r: Result<
    String,
    String,
>)
    ensures
        path_is(r, file_of(*given, *home, name@)),
{
    match dsh_home(given, home) {
        Ok(h) => Ok(join_path(h.as_str(), name)),
        Err(e) => Err(e),
    }
}

/// The file of settings.
pub fn settings_path(given: &Option<String>, home: &Option<String>) -> (r: Result<String, String>)
    ensures
        path_is(r, file_of(*given, *home, "settings.yaml"@)),
{
    home_file(given, home, "settings.yaml")
}

/// The file of credentials.
pub fn credentials_path(given: &Option<String>, home: &Option<String>) -> (r: Result<
    String,
    String,
>)
    ensures
        path_is(r, file_of(*given, *home, ".credentials.yaml"@)),
{
    home_file(given, home, ".credentials.yaml")
}

/// The file that keeps the default model.
pub fn default_model_backup_path(given: &Option<String>, home: &Option<String>) -> (r: Result<
    String,
    String,
>)
    ensures
        path_is(r, file_of(*given, *home, default_model::DEFAULT_MODEL_BACKUP@)),
{
    home_file(given, home, default_model::DEFAULT_MODEL_BACKUP)
}

/// The file that is locked while the configuration is read and written.
pub fn lock_path(given: &Option<String>, home: &Option<String>) -> (r: Result<String, String>)
    ensures
        path_is(r, file_of(*given, *home, ".ais-codex.lock"@)),
{
    home_file(given, home, ".ais-codex.lock")
}

/// The directory of the configuration as it is shown.
pub fn config_home_display(given: &Option<String>, home: &Option<String>) -> (r: String)
    ensures
        r@ == match home_of(*given, *home) {
            Ok(p) => p,
            Err(e) => "<解析失败: "@ + e + ">"@,
        },
{
    match dsh_home(given, home) {
        Ok(p) => p,
        Err(e) => text::joined_three("<解析失败: ", e.as_str(), ">"),
    }
}

/// The name of the first version of a file.
pub fn backup_name(file: &str) -> (r: String)
    ensures
        r@ == file@ + ".bak-ais-codex"@,
{
    text::joined_pair(file, ".bak-ais-codex")
}

/// The name of a file that is being written.
pub fn temp_name(file: &str) -> (r: String)
    ensures
        r@ == file@ + ".tmp-ais-codex"@,
{
    text::joined_pair(file, ".tmp-ais-codex")
}

/// One step of writing a file.
#[derive(Clone, Copy)]
pub enum WriteStep {
    /// Make the directory of the file.
    MakeDir,
    /// Write the file's content to the backup.
    CopyToBackup,
    /// Set the permissions of the backup.
    SetBackupMode(u32),
    /// Write the new content to the temporary file.
    WriteTemp,
    /// Set the permissions of the temporary file.
    SetTempMode(u32),
    /// Give the temporary file the permissions of the file.
    KeepMode,
    /// Put the temporary file in the place of the file.
    Rename,
    /// Remove the temporary file.
    DropTemp,
}

/// The steps that write a file.
pub open spec fn write_steps(
    exists: bool,
    backup_exists: bool,
    mode: Option<u32>,
) -> Seq<WriteStep> {
    let keep = exists && !backup_exists;
    seq![WriteStep::MakeDir] + (if keep {
        seq![WriteStep::CopyToBackup]
    } else {
        Seq::empty()
    }) + (match mode {
        Some(m) => if keep {
            seq![WriteStep::SetBackupMode(m)]
        } else {
            Seq::empty()
        },
        None => Seq::empty(),
    }) + seq![WriteStep::WriteTemp] + (match mode {
        Some(m) => seq![WriteStep::SetTempMode(m)],
        None => if exists {
            seq![WriteStep::KeepMode]
        } else {
            Seq::empty()
        },
    }) + seq![WriteStep::Rename]
}

/// The steps that write a file which exists or not, with the permissions `mode` where some
/// are given.
pub fn write_with_backup(exists: bool, backup_exists: bool, mode: Option<u32>) -> (r: Vec<
    WriteStep,
>)
    ensures
        r@ == write_steps(exists, backup_exists, mode),
{
    let mut out: Vec<WriteStep> = Vec::new();
    out.push(WriteStep::MakeDir);
    if exists && !backup_exists {
        out.push(WriteStep::CopyToBackup);
        match mode {
            Some(m) => {
                out.push(WriteStep::SetBackupMode(m));
            },
            None => {},
        }
    }
    out.push(WriteStep::WriteTemp);
    match mode {
        Some(m) => {
            out.push(WriteStep::SetTempMode(m));
        },
        None => {
            if exists {
                out.push(WriteStep::KeepMode);
            }
        },
    }
    out.push(WriteStep::Rename);
    assert(out@ == write_steps(exists, backup_exists, mode));
    out
}

/// What to do where a step fails: go on, or give up, after one more step where one is left
/// to do.
pub enum WriteFailure {
    GoOn,
    GiveUp(Option<WriteStep>),
}

/// What to do where a step fails: the permissions of the backup and those that are kept do
/// not matter, and a temporary file that could not take its place is removed.
pub fn write_failed(step: WriteStep) -> (r: WriteFailure)
    ensures
        r is GoOn <==> step is SetBackupMode || step is KeepMode || step is DropTemp,
        r matches WriteFailure::GiveUp(next) ==> next == (if step is Rename {
            Some(WriteStep::DropTemp)
        } else {
            None
        }),
{
    match step {
        WriteStep::SetBackupMode(_) => WriteFailure::GoOn,
        WriteStep::KeepMode => WriteFailure::GoOn,
        WriteStep::DropTemp => WriteFailure::GoOn,
        WriteStep::Rename => WriteFailure::GiveUp(Some(WriteStep::DropTemp)),
        _ => WriteFailure::GiveUp(None),
    }
}

/// Writing a file never touches a backup that is there; where it makes one, it does so
/// before anything else is written; and the file itself changes only in the last step.
pub proof fn law_write_steps(exists: bool, backup_exists: bool, mode: Option<u32>)
    ensures
        write_steps(exists, backup_exists, mode).contains(WriteStep::CopyToBackup) <==> exists
            && !backup_exists,
        backup_exists ==> forall|i: int|
            0 <= i < write_steps(exists, backup_exists, mode).len() ==> !((
            #[trigger] write_steps(exists, backup_exists, mode)[i]) is SetBackupMode),
        exists && !backup_exists ==> write_steps(exists, backup_exists, mode)[1] is CopyToBackup,
        write_steps(exists, backup_exists, mode).last() is Rename,
        forall|i: int|
            0 <= i < write_steps(exists, backup_exists, mode).len() - 1 ==> !((
            #[trigger] write_steps(exists, backup_exists, mode)[i]) is Rename),
{
    let all = write_steps(exists, backup_exists, mode);
    if exists && !backup_exists {
        assert(all[1] is CopyToBackup);
        assert(all[1] == WriteStep::CopyToBackup);
    }
}

} // verus!
