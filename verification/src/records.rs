//! Trash records, and the decisions of a run that are taken over them: where
//! a record is restored to, and which files of the trash directory a clean-up
//! removes.
use vstd::prelude::*;
use std::collections::HashMap;
use crate::compress::PackResult;
use crate::paths::{
    file_name, is_ancestor_or_self, is_normal_path, is_plain_name, lemma_parent_and_name_of_join,
    parent, path_parts, spec_file_name, spec_join, spec_parent,
};

verus! {

/// One row of the trash table.
#[derive(Debug, Clone)]
pub struct DatabaseRow {
    /// The row's key, given by the database.
    pub id: i64,
    /// Where the path was.
    pub original_path: String,
    /// The archive that holds it.
    pub present_path: String,
    /// The archive's size, human-readable.
    pub size: String,
    /// When it was packed, in milliseconds since the epoch.
    pub time: i64,
}

impl From<PackResult> for DatabaseRow {
    /// The row to insert for a packed path; the database gives the key.
    fn from(p: PackResult) -> (r: DatabaseRow) {
        DatabaseRow {
            id: 0,
            original_path: p.original_path,
            present_path: p.present_path,
            size: p.size,
            time: p.time as i64,
        }
    }
}

impl vstd::std_specs::convert::FromSpecImpl<PackResult> for DatabaseRow {
    open spec fn obeys_from_spec() -> bool {
        true
    }

    open spec fn from_spec(p: PackResult) -> DatabaseRow {
        DatabaseRow {
            id: 0,
            original_path: p.original_path,
            present_path: p.present_path,
            size: p.size,
            time: p.time as i64,
        }
    }
}

// ---------------------------------------------------------------------------
// Restoring a record
// ---------------------------------------------------------------------------

/// Where a record is restored to: the directory given for its id, or the
/// directory it was deleted from; nothing when its id was not asked for, or
/// when no directory was given and its original path has no parent.
pub open spec fn spec_restore_dir(
    row: DatabaseRow,
    to_restore: Map<i64, Option<String>>,
) -> Option<Seq<char>> {
    if !to_restore.contains_key(row.id) {
        None
    } else {
        match to_restore[row.id] {
            Some(dir) => Some(dir@),
            None => spec_parent(row.original_path@),
        }
    }
}

pub fn restore_dir(row: &DatabaseRow, to_restore: &HashMap<i64, Option<String>>) -> (r: Option<
    String,
>)
    ensures
        match r {
            Some(d) => spec_restore_dir(*row, to_restore@) == Some(d@),
            None => spec_restore_dir(*row, to_restore@) is None,
        },
{
    broadcast use vstd::std_specs::hash::group_hash_axioms;
    match to_restore.get(&row.id) {
        None => None,
        Some(target) => match target {
            Some(dir) => Some(dir.clone()),
            None => parent(row.original_path.as_str()),
        },
    }
}

// ---------------------------------------------------------------------------
// Cleaning the trash directory
// ---------------------------------------------------------------------------

/// The file name of the database, or `database.db` when its path has none.
pub open spec fn spec_database_name(db_path: Seq<char>) -> Seq<char> {
    match spec_file_name(db_path) {
        Some(n) => n,
        None => "database.db"@,
    }
}

pub fn database_name(db_path: &str) -> (name: String)
    ensures
        name@ == spec_database_name(db_path@),
{
    match file_name(db_path) {
        Some(n) => n,
        None => "database.db".to_owned(),
    }
}

/// Whether a file of the trash directory belongs to the database: its name
/// starts with the database's name (`database.db`, `database.db-wal`, ...).
pub open spec fn spec_is_database_file(entry: Seq<char>, db_name: Seq<char>) -> bool {
    match spec_file_name(entry) {
        Some(n) => db_name.len() <= n.len() && n.take(db_name.len() as int) == db_name,
        None => false,
    }
}

/// The characters of a string.
fn chars_of(s: &str) -> (v: Vec<char>)
    ensures
        v@ == s@,
{
    let mut v: Vec<char> = Vec::new();
    for c in it: s.chars()
        invariant
            it.seq() == s@,
            v@ == s@.take(it.index()),
    {
        v.push(c);
        assert(v@ =~= s@.take(it.index() + 1));
    }
    assert(v@ =~= s@);
    v
}

/// Whether `s` starts with `prefix`.
fn starts_with(s: &str, prefix: &str) -> (r: bool)
    ensures
        r == (prefix@.len() <= s@.len() && s@.take(prefix@.len() as int) == prefix@),
{
    let sv = chars_of(s);
    let pv = chars_of(prefix);
    if pv.len() > sv.len() {
        return false;
    }
    let mut i: usize = 0;
    while i < pv.len()
        invariant
            pv.len() <= sv.len(),
            sv@ == s@,
            pv@ == prefix@,
            0 <= i <= pv.len(),
            forall|j: int| 0 <= j < i ==> sv@[j] == pv@[j],
        decreases pv.len() - i,
    {
        if sv[i] != pv[i] {
            assert(s@.take(prefix@.len() as int)[i as int] != prefix@[i as int]);
            return false;
        }
        i = i + 1;
    }
    assert(s@.take(prefix@.len() as int) =~= prefix@);
    true
}

/// Whether a file of the trash directory belongs to the database, so that a
/// clean-up keeps it.
pub fn is_database_file(entry: &str, db_name: &str) -> (r: bool)
    ensures
        r == spec_is_database_file(entry@, db_name@),
{
    match file_name(entry) {
        Some(n) => starts_with(n.as_str(), db_name),
        None => false,
    }
}

/// Two paths name the same file when their components are the same.
pub open spec fn same_path(a: Seq<char>, b: Seq<char>) -> bool {
    path_parts(a) == path_parts(b)
}

/// Whether some record points at the file: some referenced archive is the
/// same path.
pub open spec fn spec_is_referenced(file: Seq<char>, referenced: Seq<String>) -> bool {
    exists|i: int| 0 <= i < referenced.len() && same_path(#[trigger] referenced[i]@, file)
}

/// Whether a record still points at `file`, so that a clean-up keeps it.
pub fn is_referenced(file: &str, referenced: &Vec<String>) -> (r: bool)
    ensures
        r == spec_is_referenced(file@, referenced@),
{
    let mut i: usize = 0;
    while i < referenced.len()
        invariant
            0 <= i <= referenced.len(),
            forall|j: int| 0 <= j < i ==> !same_path(#[trigger] referenced@[j]@, file@),
        decreases referenced.len() - i,
    {
        let r = referenced[i].as_str();
        if is_ancestor_or_self(r, file) && is_ancestor_or_self(file, r) {
            assert(path_parts(r@) =~= path_parts(file@));
            assert(same_path(referenced@[i as int]@, file@));
            return true;
        }
        proof {
            let a = path_parts(r@);
            let b = path_parts(file@);
            if a == b {
                assert(b.take(a.len() as int) =~= a);
                assert(a.take(b.len() as int) =~= b);
            }
        }
        i = i + 1;
    }
    false
}

/// What a clean-up does with a file of the trash directory: it removes it
/// unless the file belongs to the database or a record points at it.
pub open spec fn spec_sweep_removes(
    entry: Seq<char>,
    canonical: Seq<char>,
    referenced: Seq<String>,
    db_name: Seq<char>,
) -> bool {
    !spec_is_database_file(entry, db_name) && !spec_is_referenced(canonical, referenced)
}

/// Whether a clean-up removes the file `entry` of the trash directory, whose
/// canonical path is `canonical`.
pub fn sweep_removes(entry: &str, canonical: &str, referenced: &Vec<String>, db_name: &str) -> (r:
    bool)
    ensures
        r == spec_sweep_removes(entry@, canonical@, referenced@, db_name@),
{
    !is_database_file(entry, db_name) && !is_referenced(canonical, referenced)
}

// ---------------------------------------------------------------------------
// Expiry
// ---------------------------------------------------------------------------

/// Milliseconds in a day.
pub const DAY_MS: i64 = 86400000;

/// The moment before which records have expired: `save_time` days before
/// `now_ms`.
pub fn expiry_cutoff(now_ms: u64, save_time: u32) -> (cutoff: i64)
    requires
        now_ms <= i64::MAX,
    ensures
        cutoff == now_ms - save_time * DAY_MS,
{
    assert(save_time * DAY_MS <= 4294967295 * 86400000) by (nonlinear_arith)
        requires
            save_time <= 4294967295,
    ;
    (now_ms as i64) - (save_time as i64) * DAY_MS
}

/// A clean-up never removes a file of the database (`database.db` and its
/// side files) nor an archive that a record points at.
pub proof fn lemma_sweep_keeps_needed(
    entry: Seq<char>,
    canonical: Seq<char>,
    referenced: Seq<String>,
    db_name: Seq<char>,
)
    requires
        spec_is_database_file(entry, db_name) || spec_is_referenced(canonical, referenced),
    ensures
        !spec_sweep_removes(entry, canonical, referenced, db_name),
{
}

/// A clean-up removes a file of the trash directory exactly when it neither
/// belongs to the database nor is pointed at by a record; a file that no
/// record names, in a trash with no records, goes unless it is a database
/// file.
pub proof fn lemma_sweep_removes_unneeded(
    entry: Seq<char>,
    canonical: Seq<char>,
    referenced: Seq<String>,
    db_name: Seq<char>,
)
    ensures
        !spec_is_database_file(entry, db_name) && !spec_is_referenced(canonical, referenced)
            ==> spec_sweep_removes(entry, canonical, referenced, db_name),
        !spec_is_database_file(entry, db_name) ==> spec_sweep_removes(
            entry,
            canonical,
            Seq::empty(),
            db_name,
        ),
{
}

/// An archive is referenced when a record names it, written the same way or
/// with its components spelled differently (`/t//x.bak` for `/t/x.bak`).
pub proof fn lemma_named_archive_referenced(file: Seq<char>, referenced: Seq<String>, i: int)
    requires
        0 <= i < referenced.len(),
        path_parts(referenced[i]@) == path_parts(file),
    ensures
        spec_is_referenced(file, referenced),
{
    assert(same_path(referenced[i]@, file));
}

/// The files of the trash directory that belong to the database are those
/// whose name starts with the database's name: the database itself and its
/// side files (`-wal`, `-shm`, `-journal`); a file whose name differs from
/// it in its first characters is none of them.
pub proof fn lemma_database_files(dir: Seq<char>, db_name: Seq<char>, suffix: Seq<char>, other: Seq<char>)
    requires
        dir.len() > 0,
        is_normal_path(dir),
        is_plain_name(db_name + suffix),
        is_plain_name(other),
        other.len() >= db_name.len() ==> other.take(db_name.len() as int) != db_name,
    ensures
        spec_is_database_file(spec_join(dir, db_name + suffix), db_name),
        !spec_is_database_file(spec_join(dir, other), db_name),
{
    lemma_parent_and_name_of_join(dir, db_name + suffix);
    lemma_parent_and_name_of_join(dir, other);
    assert((db_name + suffix).take(db_name.len() as int) =~= db_name);
}

/// The database's name is the last component of its path.
pub proof fn lemma_database_name_of_path(dir: Seq<char>, name: Seq<char>)
    requires
        dir.len() > 0,
        is_normal_path(dir),
        is_plain_name(name),
    ensures
        spec_database_name(spec_join(dir, name)) == name,
{
    lemma_parent_and_name_of_join(dir, name);
}

/// A record is restored into the directory given for its id, or, with none
/// given, into the directory it was deleted from; a record whose id was not
/// asked for is not restored.
pub proof fn lemma_restore_dir_cases(
    row: DatabaseRow,
    to_restore: Map<i64, Option<String>>,
    dir: Seq<char>,
    name: Seq<char>,
)
    requires
        dir.len() > 0,
        is_normal_path(dir),
        is_plain_name(name),
    ensures
        !to_restore.contains_key(row.id) ==> spec_restore_dir(row, to_restore) is None,
        to_restore.contains_key(row.id) && to_restore[row.id] is Some ==> spec_restore_dir(
            row,
            to_restore,
        ) == Some(to_restore[row.id]->0@),
        to_restore.contains_key(row.id) && to_restore[row.id] is None && row.original_path@
            == spec_join(dir, name) ==> spec_restore_dir(row, to_restore) == Some(dir),
{
    lemma_parent_and_name_of_join(dir, name);
}

/// The cutoff lies `save_time` days of 24 hours before the moment of the
/// clean-up: a record packed within the last `save_time` days is not older
/// than it, and one packed before that is.
pub proof fn lemma_expiry_cutoff_days(now_ms: u64, save_time: u32, packed: int)
    requires
        now_ms <= i64::MAX,
        packed <= now_ms,
    ensures
        now_ms - save_time * (24 * 60 * 60 * 1000) <= packed ==> now_ms - save_time * DAY_MS
            <= packed,
        packed < now_ms - save_time * (24 * 60 * 60 * 1000) ==> packed < now_ms - save_time
            * DAY_MS,
{
}

} // verus!
