//! Settings: the built-in defaults, the command line on top of them, and the
//! plan of work (`Todo`) that a run carries out.
//!
//! Loading the file and the `DEL_*` variables, parsing the command line and
//! resolving paths on disk happen outside; what is decided from their results
//! is decided here.
use vstd::prelude::*;
use std::collections::HashMap;
use crate::paths::{is_ancestor_or_self, is_prefix_path, join, lemma_prefix_path_reflexive, spec_join};

verus! {

/// What to do when a restored file would overwrite an existing one.
#[derive(Debug, Clone, Copy, Hash, PartialEq, Eq, Structural, PartialOrd, Ord)]
pub enum CoverMode {
    /// Overwrite.
    Always,
    /// Ask for each file.
    Ask,
    /// Keep the existing file and skip the restored one.
    Never,
}

/// The configuration of a run.
#[derive(Debug, Clone)]
pub struct Config {
    pub cover_mode: CoverMode,
    pub compression_level: i32,
    pub save_time: u32,
    pub trash_dir: String,
    pub safe_mode: bool,
    pub disable_list: Vec<String>,
}

pub open spec fn strings_view(v: Seq<String>) -> Seq<Seq<char>> {
    v.map_values(|s: String| s@)
}

/// The system directories that are protected by default.
pub open spec fn default_system_dirs() -> Seq<Seq<char>> {
    seq![
        "/"@, "/boot"@, "/etc"@, "/usr"@, "/var"@, "/bin"@, "/sbin"@, "/lib"@, "/lib64"@,
        "/opt"@, "/root"@, "/home"@, "/proc"@, "/sys"@, "/dev"@, "/tmp"@,
    ]
}

/// The trash directory under a home directory: `~/.trash`.
pub open spec fn default_trash_dir(home: Seq<char>) -> Seq<char> {
    spec_join(home, ".trash"@)
}

fn push_str(v: &mut Vec<String>, s: &str)
    ensures
        strings_view(final(v)@) == strings_view(old(v)@).push(s@),
{
    v.push(s.to_owned());
    assert(strings_view(v@) =~= strings_view(old(v)@).push(s@));
}

impl Config {
    /// The built-in defaults for a user whose home directory is `home`:
    /// ask before overwriting, compression level 3, records kept 30 days,
    /// the trash in `~/.trash`, safe mode on, and the trash, the home
    /// directory and the system directories protected.
    pub fn with_home(home: &str) -> (c: Config)
        ensures
            c.cover_mode == CoverMode::Ask,
            c.compression_level == 3,
            c.save_time == 30,
            c.trash_dir@ == default_trash_dir(home@),
            c.safe_mode,
            strings_view(c.disable_list@) == seq![default_trash_dir(home@), home@]
                + default_system_dirs(),
    {
        let trash_dir = join(home, ".trash");
        let mut list: Vec<String> = Vec::new();
        list.push(trash_dir.clone());
        list.push(home.to_owned());
        push_str(&mut list, "/");
        push_str(&mut list, "/boot");
        push_str(&mut list, "/etc");
        push_str(&mut list, "/usr");
        push_str(&mut list, "/var");
        push_str(&mut list, "/bin");
        push_str(&mut list, "/sbin");
        push_str(&mut list, "/lib");
        push_str(&mut list, "/lib64");
        push_str(&mut list, "/opt");
        push_str(&mut list, "/root");
        push_str(&mut list, "/home");
        push_str(&mut list, "/proc");
        push_str(&mut list, "/sys");
        push_str(&mut list, "/dev");
        push_str(&mut list, "/tmp");
        assert(strings_view(list@) =~= seq![default_trash_dir(home@), home@]
            + default_system_dirs());
        Config {
            cover_mode: CoverMode::Ask,
            compression_level: 3,
            save_time: 30,
            trash_dir,
            safe_mode: true,
            disable_list: list,
        }
    }
}

/// The command line of a run.
#[derive(Debug, Clone)]
pub struct Cli {
    /// Files or directories to delete.
    pub path: Vec<String>,
    /// Delete permanently instead of moving to the trash.
    pub force: bool,
    /// Patterns to look for in the original paths of records.
    pub select: Vec<String>,
    /// Remove directories recursively, together with `force`.
    pub recursive: bool,
    /// List every record.
    pub list: bool,
    /// Ids of records to show, one list per occurrence of the flag.
    pub show: Vec<Vec<u64>>,
    /// Ids of records to restore.
    pub restore: Vec<Vec<u64>>,
    /// Ids of records to drop.
    pub delete: Vec<Vec<u64>>,
    /// Compression level for this run.
    pub level: Option<i32>,
    /// Days that records are kept.
    pub save_time: Option<u32>,
    /// The trash directory for this run.
    pub trash_dir: Option<String>,
    /// More paths to protect.
    pub disable: Vec<String>,
    /// Turn safe mode on.
    pub safe: bool,
    /// Drop expired records and unreferenced archives.
    pub autoclean: bool,
    /// Pack without removing the originals.
    pub save: bool,
    /// Drop every record.
    pub clear: bool,
    /// What to do when a restored file already exists.
    pub cover: Option<CoverMode>,
    /// Where to restore, paired with the restored ids in order.
    pub output: Vec<String>,
    /// Open the file browser on this path.
    pub tui: Option<String>,
    /// Print debug logs.
    pub verbose: bool,
}

/// The work that one run carries out.
#[derive(Debug, Clone)]
pub struct Todo {
    pub select: Vec<String>,
    /// Paths to delete.
    pub to_remove: Vec<String>,
    /// Whether to delete forever instead of moving to the trash.
    pub force: bool,
    /// Only effective when `force` is true.
    pub recursive: bool,
    /// Pack into the trash without removing the originals.
    pub save: bool,
    pub level: i32,
    /// Trash ids to restore, with an optional custom output directory.
    pub to_restore: HashMap<i64, Option<String>>,
    pub cover: CoverMode,
    /// Trash ids to delete from the records.
    pub to_delete: Vec<i64>,
    /// Whether to clean the trash.
    pub autoclearn: bool,
    /// Only effective when `autoclearn` is true.
    pub save_time: u32,
    pub trash_dir: String,
    pub show: Vec<i64>,
    pub list: bool,
    pub clear: bool,
}

// ---------------------------------------------------------------------------
// The command line over the configuration
// ---------------------------------------------------------------------------

pub open spec fn opt_or<T>(o: Option<T>, d: T) -> T {
    match o {
        Some(v) => v,
        None => d,
    }
}

/// A copy of a list of strings.
pub fn clone_strings(v: &Vec<String>) -> (r: Vec<String>)
    ensures
        r@ == v@,
{
    let mut r: Vec<String> = Vec::new();
    let mut i: usize = 0;
    while i < v.len()
        invariant
            0 <= i <= v.len(),
            r@ == v@.take(i as int),
        decreases v.len() - i,
    {
        r.push(v[i].clone());
        assert(r@ =~= v@.take(i + 1));
        i = i + 1;
    }
    assert(v@.take(v.len() as int) =~= v@);
    r
}

/// The protected paths of a run: the configured ones, then those given with
/// `--disable`.
pub open spec fn spec_merged_disable_list(config: Config, cli: Cli) -> Seq<String> {
    config.disable_list@ + cli.disable@
}

/// The protected paths of a run: the configured ones, then those given with
/// `--disable`.
pub fn merged_disable_list(config: &Config, cli: &Cli) -> (list: Vec<String>)
    ensures
        list@ == spec_merged_disable_list(*config, *cli),
{
    let mut list = clone_strings(&config.disable_list);
    let mut extra = clone_strings(&cli.disable);
    list.append(&mut extra);
    list
}

/// The command line over the configuration: each option given on the command
/// line replaces the configured value, `--safe` can only turn safe mode on,
/// and `--disable` appends to the protected paths.
pub open spec fn applied(config: Config, cli: Cli, merged: Config) -> bool {
    &&& merged.cover_mode == opt_or(cli.cover, config.cover_mode)
    &&& merged.compression_level == opt_or(cli.level, config.compression_level)
    &&& merged.save_time == opt_or(cli.save_time, config.save_time)
    &&& merged.trash_dir == opt_or(cli.trash_dir, config.trash_dir)
    &&& merged.safe_mode == (config.safe_mode || cli.safe)
    &&& merged.disable_list@ == spec_merged_disable_list(config, cli)
}

/// Applies the command line to the configuration.
pub fn apply_cli(config: Config, cli: &Cli) -> (merged: Config)
    ensures
        applied(config, *cli, merged),
{
    let mut config = config;
    let ghost before = config;
    if let Some(c) = cli.cover {
        config.cover_mode = c;
    }
    if let Some(lv) = cli.level {
        config.compression_level = lv;
    }
    if let Some(t) = cli.save_time {
        config.save_time = t;
    }
    if let Some(d) = &cli.trash_dir {
        config.trash_dir = d.clone();
    }
    if cli.safe {
        config.safe_mode = true;
    }
    if cli.disable.len() != 0 {
        let mut extra = clone_strings(&cli.disable);
        config.disable_list.append(&mut extra);
    } else {
        assert(before.disable_list@ + cli.disable@ =~= before.disable_list@);
    }
    config
}

// ---------------------------------------------------------------------------
// Which paths are deleted
// ---------------------------------------------------------------------------

/// What is known on disk of one protected path.
#[derive(Debug, Clone)]
pub enum DisableProbe {
    /// It does not exist.
    Missing,
    /// It exists and resolves to this canonical path.
    Resolved(String),
    /// It exists but cannot be resolved.
    Unresolved,
}

/// Whether a protected path keeps `target` from being deleted: when it
/// resolves to `target` or to something below it, or when it cannot be
/// resolved at all.
pub open spec fn blocks(target: Seq<char>, probe: DisableProbe) -> bool {
    match probe {
        DisableProbe::Missing => false,
        DisableProbe::Resolved(d) => is_prefix_path(target, d@),
        DisableProbe::Unresolved => true,
    }
}

/// No protected path keeps `target` from being deleted.
pub open spec fn unprotected(target: Seq<char>, probes: Seq<DisableProbe>) -> bool {
    forall|i: int| 0 <= i < probes.len() ==> !blocks(target, #[trigger] probes[i])
}

/// The targets to delete, in order: those that resolved on disk and that no
/// protected path keeps.
pub open spec fn spec_select_targets(
    targets: Seq<Option<String>>,
    probes: Seq<DisableProbe>,
) -> Seq<String>
    decreases targets.len(),
{
    if targets.len() == 0 {
        Seq::empty()
    } else {
        let prev = spec_select_targets(targets.drop_last(), probes);
        match targets.last() {
            Some(t) => if unprotected(t@, probes) {
                prev.push(t)
            } else {
                prev
            },
            None => prev,
        }
    }
}

fn is_unprotected(target: &String, probes: &Vec<DisableProbe>) -> (r: bool)
    ensures
        r == unprotected(target@, probes@),
{
    let mut i: usize = 0;
    while i < probes.len()
        invariant
            0 <= i <= probes.len(),
            forall|j: int| 0 <= j < i ==> !blocks(target@, #[trigger] probes@[j]),
        decreases probes.len() - i,
    {
        let blocked = match &probes[i] {
            DisableProbe::Missing => false,
            DisableProbe::Resolved(d) => is_ancestor_or_self(target.as_str(), d.as_str()),
            DisableProbe::Unresolved => true,
        };
        if blocked {
            assert(blocks(target@, probes@[i as int]));
            return false;
        }
        i = i + 1;
    }
    true
}

/// The targets to delete: each resolved target, in order, unless a protected
/// path is the target itself or lies below it, or exists but cannot be
/// resolved.
pub fn select_targets(targets: &Vec<Option<String>>, probes: &Vec<DisableProbe>) -> (r: Vec<String>)
    ensures
        r@ == spec_select_targets(targets@, probes@),
        forall|i: int| 0 <= i < r@.len() ==> unprotected(#[trigger] r@[i]@, probes@),
{
    let mut r: Vec<String> = Vec::new();
    let mut i: usize = 0;
    while i < targets.len()
        invariant
            0 <= i <= targets.len(),
            r@ == spec_select_targets(targets@.take(i as int), probes@),
            forall|k: int| 0 <= k < r@.len() ==> unprotected(#[trigger] r@[k]@, probes@),
        decreases targets.len() - i,
    {
        proof {
            assert(targets@.take(i + 1).drop_last() =~= targets@.take(i as int));
        }
        match &targets[i] {
            Some(t) => {
                if is_unprotected(t, probes) {
                    r.push(t.clone());
                }
            },
            None => {},
        }
        i = i + 1;
    }
    assert(targets@.take(targets.len() as int) =~= targets@);
    r
}

// ---------------------------------------------------------------------------
// Ids
// ---------------------------------------------------------------------------

/// The ids of all occurrences of a flag, in order.
pub open spec fn concat_ids(groups: Seq<Vec<u64>>) -> Seq<u64>
    decreases groups.len(),
{
    if groups.len() == 0 {
        Seq::empty()
    } else {
        concat_ids(groups.drop_last()) + groups.last()@
    }
}

/// Ids as record ids (`u64 as i64`).
pub open spec fn as_record_ids(ids: Seq<u64>) -> Seq<i64> {
    ids.map_values(|x: u64| x as i64)
}

/// The ids of all occurrences of a flag, in order, as record ids.
pub fn record_ids(groups: &Vec<Vec<u64>>) -> (r: Vec<i64>)
    ensures
        r@ == as_record_ids(concat_ids(groups@)),
{
    let mut r: Vec<i64> = Vec::new();
    let mut g: usize = 0;
    while g < groups.len()
        invariant
            0 <= g <= groups.len(),
            r@ == as_record_ids(concat_ids(groups@.take(g as int))),
        decreases groups.len() - g,
    {
        let group = &groups[g];
        let ghost base = r@;
        proof {
            assert(groups@.take(g + 1).drop_last() =~= groups@.take(g as int));
        }
        let mut k: usize = 0;
        while k < group.len()
            invariant
                0 <= k <= group.len(),
                r@ == base + as_record_ids(group@.take(k as int)),
            decreases group.len() - k,
        {
            r.push(group[k] as i64);
            assert(as_record_ids(group@.take(k + 1)) =~= as_record_ids(group@.take(k as int)).push(
                group@[k as int] as i64,
            ));
            k = k + 1;
        }
        assert(group@.take(group.len() as int) =~= group@);
        assert(as_record_ids(concat_ids(groups@.take(g + 1))) =~= base + as_record_ids(group@));
        g = g + 1;
    }
    assert(groups@.take(groups.len() as int) =~= groups@);
    r
}

/// The ids of several occurrences of a flag are those of each occurrence,
/// in the order given, none dropped or repeated: a further occurrence adds
/// its ids at the end, and each id keeps its value as a record id.
pub proof fn lemma_record_ids_in_order(groups: Seq<Vec<u64>>, group: Vec<u64>, ids: Seq<u64>, i: int)
    requires
        0 <= i < ids.len(),
    ensures
        concat_ids(Seq::empty()) == Seq::<u64>::empty(),
        concat_ids(seq![group]) == group@,
        concat_ids(groups.push(group)) == concat_ids(groups) + group@,
        as_record_ids(ids).len() == ids.len(),
        as_record_ids(ids)[i] == ids[i] as i64,
        ids[i] <= i64::MAX ==> as_record_ids(ids)[i] == ids[i],
{
    assert(groups.push(group).drop_last() =~= groups);
    assert(seq![group].drop_last() =~= Seq::<Vec<u64>>::empty());
    assert(Seq::<u64>::empty() + group@ =~= group@);
}

/// Restore targets: each id paired with the output directory at the same
/// position, or with none when there are fewer directories than ids; a later
/// occurrence of an id replaces an earlier one.
pub open spec fn restore_map(ids: Seq<i64>, outputs: Seq<String>) -> Map<i64, Option<String>>
    decreases ids.len(),
{
    if ids.len() == 0 {
        Map::empty()
    } else {
        let i = ids.len() - 1;
        restore_map(ids.drop_last(), outputs).insert(
            ids.last(),
            if i < outputs.len() { Some(outputs[i]) } else { None },
        )
    }
}

/// Pairs the restored ids with the output directories.
pub fn restore_targets(ids: &Vec<i64>, outputs: &Vec<String>) -> (m: HashMap<i64, Option<String>>)
    ensures
        m@ == restore_map(ids@, outputs@),
{
    broadcast use vstd::std_specs::hash::group_hash_axioms;
    let mut m: HashMap<i64, Option<String>> = HashMap::with_capacity(ids.len());
    let mut i: usize = 0;
    while i < ids.len()
        invariant
            0 <= i <= ids.len(),
            m@ == restore_map(ids@.take(i as int), outputs@),
        decreases ids.len() - i,
    {
        let out = if i < outputs.len() {
            Some(outputs[i].clone())
        } else {
            None
        };
        m.insert(ids[i], out);
        proof {
            let t = ids@.take(i + 1);
            assert(t.drop_last() =~= ids@.take(i as int));
            assert(t.last() == ids@[i as int]);
        }
        i = i + 1;
    }
    assert(ids@.take(ids.len() as int) =~= ids@);
    m
}

// ---------------------------------------------------------------------------
// The plan of a run
// ---------------------------------------------------------------------------

/// Whether paths are deleted forever: only with `--force`, and never in safe
/// mode or together with `--save`.
pub open spec fn spec_effective_force(safe_mode: bool, save: bool, force: bool) -> bool {
    if safe_mode || save {
        false
    } else {
        force
    }
}

pub fn effective_force(safe_mode: bool, save: bool, force: bool) -> (r: bool)
    ensures
        r == spec_effective_force(safe_mode, save, force),
{
    if safe_mode || save {
        false
    } else {
        force
    }
}

/// The plan of a run, from the loaded configuration, the command line, what
/// each path on the command line resolved to (`None` when it does not exist),
/// and what each protected path of `merged_disable_list` resolved to.
pub fn init(
    config: Config,
    cli: Cli,
    targets: Vec<Option<String>>,
    probes: Vec<DisableProbe>,
) -> (todo: Todo)
    requires
        probes@.len() == config.disable_list@.len() + cli.disable@.len(),
    ensures
        ({
            let merged = Config {
                cover_mode: opt_or(cli.cover, config.cover_mode),
                compression_level: opt_or(cli.level, config.compression_level),
                save_time: opt_or(cli.save_time, config.save_time),
                trash_dir: opt_or(cli.trash_dir, config.trash_dir),
                safe_mode: config.safe_mode || cli.safe,
                disable_list: config.disable_list,
            };
            &&& todo.select == cli.select
            &&& todo.to_remove@ == spec_select_targets(targets@, probes@)
            &&& todo.force == spec_effective_force(merged.safe_mode, cli.save, cli.force)
            &&& todo.recursive == cli.recursive
            &&& todo.save == cli.save
            &&& todo.level == merged.compression_level
            &&& todo.to_restore@ == restore_map(
                as_record_ids(concat_ids(cli.restore@)),
                cli.output@,
            )
            &&& todo.cover == merged.cover_mode
            &&& todo.to_delete@ == as_record_ids(concat_ids(cli.delete@))
            &&& todo.autoclearn == cli.autoclean
            &&& todo.save_time == merged.save_time
            &&& todo.trash_dir == merged.trash_dir
            &&& todo.show@ == as_record_ids(concat_ids(cli.show@))
            &&& todo.list == cli.list
            &&& todo.clear == cli.clear
        }),
{
    let merged = apply_cli(config, &cli);
    let to_remove = select_targets(&targets, &probes);
    let restore_ids = record_ids(&cli.restore);
    let to_restore = restore_targets(&restore_ids, &cli.output);
    let to_delete = record_ids(&cli.delete);
    let show = record_ids(&cli.show);
    let force = effective_force(merged.safe_mode, cli.save, cli.force);
    Todo {
        select: cli.select,
        to_remove,
        force,
        recursive: cli.recursive,
        save: cli.save,
        level: merged.compression_level,
        to_restore,
        cover: merged.cover_mode,
        to_delete,
        autoclearn: cli.autoclean,
        save_time: merged.save_time,
        trash_dir: merged.trash_dir,
        show,
        list: cli.list,
        clear: cli.clear,
    }
}

/// How the paths of a run are deleted.
#[derive(Debug, Clone, Copy, PartialEq, Eq, Structural)]
pub enum DeleteMode {
    /// Removed for good, directories with all they hold.
    ForceRecursive,
    /// Removed for good, as files.
    ForceFiles,
    /// Packed into the trash, then removed.
    PackAndRemove,
    /// Packed into the trash and kept in place.
    PackOnly,
}

pub open spec fn spec_delete_mode(force: bool, recursive: bool, save: bool) -> DeleteMode {
    if force {
        if recursive {
            DeleteMode::ForceRecursive
        } else {
            DeleteMode::ForceFiles
        }
    } else if save {
        DeleteMode::PackOnly
    } else {
        DeleteMode::PackAndRemove
    }
}

impl Todo {
    /// How the paths of this run are deleted.
    pub fn delete_mode(&self) -> (m: DeleteMode)
        ensures
            m == spec_delete_mode(self.force, self.recursive, self.save),
    {
        if self.force {
            if self.recursive {
                DeleteMode::ForceRecursive
            } else {
                DeleteMode::ForceFiles
            }
        } else if self.save {
            DeleteMode::PackOnly
        } else {
            DeleteMode::PackAndRemove
        }
    }
}

// ---------------------------------------------------------------------------
// What the configuration promises
// ---------------------------------------------------------------------------

/// In safe mode, and together with `--save`, nothing is deleted forever:
/// `--force` is ignored.
pub proof fn lemma_safe_mode_ignores_force(safe_mode: bool, save: bool, force: bool)
    requires
        safe_mode || save,
    ensures
        !spec_effective_force(safe_mode, save, force),
{
}

/// With safe mode off and no `--save`, `--force` is taken as given: it is on
/// exactly when it was asked for.
pub proof fn lemma_force_kept_when_unsafe(force: bool)
    ensures
        spec_effective_force(false, false, force) == force,
        spec_effective_force(false, false, true),
        !spec_effective_force(false, false, false),
{
}

/// In safe mode every path is packed into the trash before anything is
/// removed, and with `--save` nothing is removed at all.
pub proof fn lemma_safe_mode_packs_first(safe_mode: bool, save: bool, force: bool, recursive: bool)
    ensures
        safe_mode ==> spec_delete_mode(spec_effective_force(safe_mode, save, force), recursive, save)
            != DeleteMode::ForceRecursive,
        safe_mode ==> spec_delete_mode(spec_effective_force(safe_mode, save, force), recursive, save)
            != DeleteMode::ForceFiles,
        save ==> spec_delete_mode(spec_effective_force(safe_mode, save, force), recursive, save)
            == DeleteMode::PackOnly,
{
}

/// What each combination of flags does with the paths of a run. Without
/// `--force` every path is packed into the trash first, whatever
/// `--recursive` says; the originals are then removed unless `--save` is
/// given. With `--force` nothing is packed, and `--recursive` decides whether
/// directories go with all they hold.
pub proof fn lemma_delete_mode_cases(force: bool, recursive: bool, save: bool)
    ensures
        (spec_delete_mode(force, recursive, save) == DeleteMode::PackAndRemove) <==> (!force
            && !save),
        (spec_delete_mode(force, recursive, save) == DeleteMode::PackOnly) <==> (!force && save),
        (spec_delete_mode(force, recursive, save) == DeleteMode::ForceRecursive) <==> (force
            && recursive),
        (spec_delete_mode(force, recursive, save) == DeleteMode::ForceFiles) <==> (force
            && !recursive),
{
}

/// A plain run (`del report.txt`: no `--force`, no `--save`) packs each path
/// into the trash and removes the original, in safe mode or not and with
/// `--recursive` or not.
pub proof fn lemma_plain_run_packs_and_removes(safe_mode: bool, recursive: bool)
    ensures
        spec_delete_mode(spec_effective_force(safe_mode, false, false), recursive, false)
            == DeleteMode::PackAndRemove,
{
}

/// The command line can turn safe mode on but never off, and protected paths
/// given on it are added to the configured ones, which all stay.
pub proof fn lemma_cli_only_adds_safety(config: Config, cli: Cli, merged: Config)
    requires
        applied(config, cli, merged),
    ensures
        config.safe_mode ==> merged.safe_mode,
        cli.safe ==> merged.safe_mode,
        forall|i: int|
            0 <= i < config.disable_list@.len() ==> merged.disable_list@[i]
                == #[trigger] config.disable_list@[i],
        forall|i: int|
            0 <= i < cli.disable@.len() ==> merged.disable_list@[config.disable_list@.len() + i]
                == #[trigger] cli.disable@[i],
{
}

/// An option given on the command line wins over the configured value, and
/// one left out keeps it.
pub proof fn lemma_cli_overrides(config: Config, cli: Cli, merged: Config)
    requires
        applied(config, cli, merged),
    ensures
        cli.cover matches Some(c) ==> merged.cover_mode == c,
        cli.cover is None ==> merged.cover_mode == config.cover_mode,
        cli.level matches Some(l) ==> merged.compression_level == l,
        cli.level is None ==> merged.compression_level == config.compression_level,
        cli.save_time matches Some(t) ==> merged.save_time == t,
        cli.save_time is None ==> merged.save_time == config.save_time,
        cli.trash_dir matches Some(d) ==> merged.trash_dir == d,
        cli.trash_dir is None ==> merged.trash_dir == config.trash_dir,
        !config.safe_mode && !cli.safe ==> !merged.safe_mode,
        merged.disable_list@.len() == config.disable_list@.len() + cli.disable@.len(),
{
}

/// Every selected target resolved from the command line, and no protected
/// path is the target itself or lies below it.
pub proof fn lemma_selected_targets_unprotected(
    targets: Seq<Option<String>>,
    probes: Seq<DisableProbe>,
)
    ensures
        forall|k: int|
            0 <= k < spec_select_targets(targets, probes).len() ==> {
                &&& unprotected(#[trigger] spec_select_targets(targets, probes)[k]@, probes)
                &&& exists|j: int|
                    0 <= j < targets.len() && targets[j] == Some(
                        spec_select_targets(targets, probes)[k],
                    )
            },
    decreases targets.len(),
{
    if targets.len() > 0 {
        let prev = targets.drop_last();
        lemma_selected_targets_unprotected(prev, probes);
        let sel = spec_select_targets(targets, probes);
        let psel = spec_select_targets(prev, probes);
        assert forall|k: int| 0 <= k < sel.len() implies {
            &&& unprotected(#[trigger] sel[k]@, probes)
            &&& exists|j: int| 0 <= j < targets.len() && targets[j] == Some(sel[k])
        } by {
            if k < psel.len() {
                assert(sel[k] == psel[k]);
                assert(unprotected(psel[k]@, probes));
                assert(exists|j: int| 0 <= j < prev.len() && prev[j] == Some(psel[k]));
                let j = choose|j: int| 0 <= j < prev.len() && prev[j] == Some(psel[k]);
                assert(targets[j] == prev[j]);
            } else {
                assert(targets[targets.len() - 1] == Some(sel[k]));
            }
        }
    }
}

/// A protected path that resolves is never deleted, nor is any directory
/// that contains it: no selected target is the protected path or one of its
/// ancestors.
pub proof fn lemma_protected_path_never_selected(
    targets: Seq<Option<String>>,
    probes: Seq<DisableProbe>,
    j: int,
    k: int,
)
    requires
        0 <= j < probes.len(),
        probes[j] is Resolved,
        0 <= k < spec_select_targets(targets, probes).len(),
    ensures
        !is_prefix_path(spec_select_targets(targets, probes)[k]@, probes[j]->Resolved_0@),
        spec_select_targets(targets, probes)[k]@ != probes[j]->Resolved_0@,
{
    lemma_selected_targets_unprotected(targets, probes);
    let t = spec_select_targets(targets, probes)[k];
    assert(unprotected(t@, probes));
    assert(!blocks(t@, probes[j]));
    if t@ == probes[j]->Resolved_0@ {
        lemma_prefix_path_reflexive(t@);
    }
}

/// A resolved target that no protected path keeps is deleted: it is among
/// the selected targets.
pub proof fn lemma_unprotected_target_selected(
    targets: Seq<Option<String>>,
    probes: Seq<DisableProbe>,
    j: int,
)
    requires
        0 <= j < targets.len(),
        targets[j] is Some,
        unprotected(targets[j]->0@, probes),
    ensures
        spec_select_targets(targets, probes).contains(targets[j]->0),
    decreases targets.len(),
{
    let sel = spec_select_targets(targets, probes);
    if j == targets.len() - 1 {
        assert(sel[sel.len() - 1] == targets[j]->0);
    } else {
        let prev = targets.drop_last();
        assert(prev[j] == targets[j]);
        lemma_unprotected_target_selected(prev, probes, j);
        let psel = spec_select_targets(prev, probes);
        let k = choose|k: int| 0 <= k < psel.len() && psel[k] == targets[j]->0;
        assert(sel[k] == psel[k]);
    }
}

pub open spec fn distinct_ids(ids: Seq<i64>) -> bool {
    forall|a: int, b: int| 0 <= a < b < ids.len() ==> ids[a] != ids[b]
}

/// With `-R 1,2 -o a,b`, record 1 goes to `a` and record 2 to `b`: the i-th
/// restored id is paired with the i-th output directory, and an id without
/// one falls back to its original directory.
pub proof fn lemma_restore_pairs(ids: Seq<i64>, outputs: Seq<String>, i: int)
    requires
        distinct_ids(ids),
        0 <= i < ids.len(),
    ensures
        restore_map(ids, outputs).contains_key(ids[i]),
        restore_map(ids, outputs)[ids[i]] == if i < outputs.len() {
            Some(outputs[i])
        } else {
            None
        },
    decreases ids.len(),
{
    if i < ids.len() - 1 {
        let prev = ids.drop_last();
        assert(prev[i] == ids[i]);
        assert(ids[i] != ids.last());
        lemma_restore_pairs(prev, outputs, i);
    }
}

/// Only the ids asked for are restored.
pub proof fn lemma_restore_only_asked(ids: Seq<i64>, outputs: Seq<String>, id: i64)
    requires
        restore_map(ids, outputs).contains_key(id),
    ensures
        ids.contains(id),
    decreases ids.len(),
{
    if ids.len() > 0 && ids.last() != id {
        lemma_restore_only_asked(ids.drop_last(), outputs, id);
        let k = choose|k: int| 0 <= k < ids.drop_last().len() && ids.drop_last()[k] == id;
        assert(ids[k] == id);
    } else if ids.len() > 0 {
        assert(ids[ids.len() - 1] == id);
    }
}

} // verus!
