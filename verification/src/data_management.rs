//! Planning of storage-directory migrations, resets and cleanups.
//!
//! The functions here decide what has to happen to the data directory;
//! the file-system work itself is carried out by the caller, step by step.
use vstd::prelude::*;
use crate::text::{
    append, ascii_lowered, chars_of, concat, has_prefix, owned, replace_char, replaced_char,
    starts_with, str_eq, string_from, to_ascii_lowercase,
};
use crate::paths::{join, joined_path, parent_dir, parent_path};
use crate::settings::{
    default_settings, get_data_directory, settings_load_failure, with_custom_storage,
    with_default_storage, AppSettings, SettingsView,
};

verus! {

/// One kind of data that lives in a storage directory.
#[derive(Clone, Copy, Debug, PartialEq, Eq, Structural)]
pub enum StorageArtifact {
    /// `clipboard_images/`
    ClipboardImages,
    /// `pin_images/`
    PinImages,
    /// `image_library/`
    ImageLibrary,
    /// `app_icons/`
    AppIcons,
    /// `quickclipboard.db`
    Database,
}

/// Which artifacts exist in one storage directory.
#[derive(Clone, Copy, Debug, PartialEq, Eq, Structural)]
pub struct ArtifactPresence {
    pub clipboard_images: bool,
    pub pin_images: bool,
    pub image_library: bool,
    pub app_icons: bool,
    pub database: bool,
}

/// How the data of the old and the new directory are combined.
#[derive(Clone, Copy, Debug, PartialEq, Eq, Structural)]
pub enum MigrationMode {
    /// The old directory's data replaces the new directory's data.
    SourceOnly,
    /// The new directory's data is kept; the old directory's data is dropped.
    TargetOnly,
    /// Both are combined; on a conflict the old directory's data wins.
    Merge,
}

/// One file-system operation of a migration.
#[derive(Clone, Copy, Debug, PartialEq, Eq, Structural)]
pub enum MigrationStep {
    /// Delete the artifact from the new directory.
    RemoveFromTarget(StorageArtifact),
    /// Delete the artifact from the old directory.
    RemoveFromSource(StorageArtifact),
    /// Create the (directory) artifact in the new directory.
    CreateInTarget(StorageArtifact),
    /// Copy the files of the new directory's artifact into the old one, keeping existing files.
    MergeTargetIntoSource(StorageArtifact),
    /// Open the old database and import the rows of the new directory's database into it.
    MergeTargetDatabaseIntoSource,
    /// Move the artifact from the old directory to the new one.
    MoveToTarget(StorageArtifact),
    /// Delete the `-shm` and `-wal` journal files in both directories, ignoring failures.
    RemoveJournalFiles,
}

impl ArtifactPresence {
    /// Whether the artifact is present.
    pub open spec fn has(self, a: StorageArtifact) -> bool {
        match a {
            StorageArtifact::ClipboardImages => self.clipboard_images,
            StorageArtifact::PinImages => self.pin_images,
            StorageArtifact::ImageLibrary => self.image_library,
            StorageArtifact::AppIcons => self.app_icons,
            StorageArtifact::Database => self.database,
        }
    }

    /// The same presence with the artifact set to `v`.
    pub open spec fn with(self, a: StorageArtifact, v: bool) -> ArtifactPresence {
        match a {
            StorageArtifact::ClipboardImages => ArtifactPresence { clipboard_images: v, ..self },
            StorageArtifact::PinImages => ArtifactPresence { pin_images: v, ..self },
            StorageArtifact::ImageLibrary => ArtifactPresence { image_library: v, ..self },
            StorageArtifact::AppIcons => ArtifactPresence { app_icons: v, ..self },
            StorageArtifact::Database => ArtifactPresence { database: v, ..self },
        }
    }

    /// Whether the artifact is present.
    pub fn contains(&self, a: StorageArtifact) -> (r: bool)
        ensures
            r == self.has(a),
    {
        match a {
            StorageArtifact::ClipboardImages => self.clipboard_images,
            StorageArtifact::PinImages => self.pin_images,
            StorageArtifact::ImageLibrary => self.image_library,
            StorageArtifact::AppIcons => self.app_icons,
            StorageArtifact::Database => self.database,
        }
    }
}

/// `s` with `x` appended when `c` holds.
pub open spec fn push_if(s: Seq<MigrationStep>, c: bool, x: MigrationStep) -> Seq<MigrationStep> {
    if c {
        s.push(x)
    } else {
        s
    }
}

/// The removals from the new directory that begin a `source_only` migration.
pub open spec fn remove_from_target_steps(dst: ArtifactPresence) -> Seq<MigrationStep> {
    let s = Seq::<MigrationStep>::empty();
    let s = push_if(s, dst.clipboard_images, MigrationStep::RemoveFromTarget(StorageArtifact::ClipboardImages));
    let s = push_if(s, dst.pin_images, MigrationStep::RemoveFromTarget(StorageArtifact::PinImages));
    let s = push_if(s, dst.image_library, MigrationStep::RemoveFromTarget(StorageArtifact::ImageLibrary));
    let s = push_if(s, dst.app_icons, MigrationStep::RemoveFromTarget(StorageArtifact::AppIcons));
    push_if(s, dst.database, MigrationStep::RemoveFromTarget(StorageArtifact::Database))
}

/// Moves of every artifact that the old directory holds.
pub open spec fn move_steps(s: Seq<MigrationStep>, src: ArtifactPresence) -> Seq<MigrationStep> {
    let s = push_if(s, src.clipboard_images, MigrationStep::MoveToTarget(StorageArtifact::ClipboardImages));
    let s = push_if(s, src.pin_images, MigrationStep::MoveToTarget(StorageArtifact::PinImages));
    let s = push_if(s, src.image_library, MigrationStep::MoveToTarget(StorageArtifact::ImageLibrary));
    let s = push_if(s, src.app_icons, MigrationStep::MoveToTarget(StorageArtifact::AppIcons));
    push_if(s, src.database, MigrationStep::MoveToTarget(StorageArtifact::Database))
}

/// Removals of every artifact that the old directory holds.
pub open spec fn remove_from_source_steps(src: ArtifactPresence) -> Seq<MigrationStep> {
    let s = Seq::<MigrationStep>::empty();
    let s = push_if(s, src.clipboard_images, MigrationStep::RemoveFromSource(StorageArtifact::ClipboardImages));
    let s = push_if(s, src.pin_images, MigrationStep::RemoveFromSource(StorageArtifact::PinImages));
    let s = push_if(s, src.image_library, MigrationStep::RemoveFromSource(StorageArtifact::ImageLibrary));
    let s = push_if(s, src.app_icons, MigrationStep::RemoveFromSource(StorageArtifact::AppIcons));
    push_if(s, src.database, MigrationStep::RemoveFromSource(StorageArtifact::Database))
}

/// The merge of one directory artifact: when the old directory holds it, the new
/// directory's files are merged into it (creating the target first when absent),
/// the target copy is dropped, and the old directory's artifact is moved over.
pub open spec fn merge_dir_steps(
    s: Seq<MigrationStep>,
    a: StorageArtifact,
    src: ArtifactPresence,
    dst: ArtifactPresence,
) -> Seq<MigrationStep> {
    if src.has(a) {
        push_if(s, !dst.has(a), MigrationStep::CreateInTarget(a))
            .push(MigrationStep::MergeTargetIntoSource(a))
            .push(MigrationStep::RemoveFromTarget(a))
            .push(MigrationStep::MoveToTarget(a))
    } else {
        s
    }
}

/// The merge of the database: when both directories hold one, the new directory's
/// rows are imported into the old database and the new file is dropped; the old
/// database is then moved over.
pub open spec fn merge_database_steps(
    s: Seq<MigrationStep>,
    src: ArtifactPresence,
    dst: ArtifactPresence,
) -> Seq<MigrationStep> {
    if src.database {
        if dst.database {
            s.push(MigrationStep::MergeTargetDatabaseIntoSource)
                .push(MigrationStep::RemoveFromTarget(StorageArtifact::Database))
                .push(MigrationStep::MoveToTarget(StorageArtifact::Database))
        } else {
            s.push(MigrationStep::MoveToTarget(StorageArtifact::Database))
        }
    } else {
        s
    }
}

/// The steps of a migration in the given mode, before the final journal cleanup.
pub open spec fn mode_steps(
    mode: MigrationMode,
    src: ArtifactPresence,
    dst: ArtifactPresence,
) -> Seq<MigrationStep> {
    match mode {
        MigrationMode::SourceOnly => move_steps(remove_from_target_steps(dst), src),
        MigrationMode::TargetOnly => remove_from_source_steps(src),
        MigrationMode::Merge => {
            let s = Seq::<MigrationStep>::empty();
            let s = merge_dir_steps(s, StorageArtifact::ClipboardImages, src, dst);
            let s = merge_dir_steps(s, StorageArtifact::PinImages, src, dst);
            let s = merge_dir_steps(s, StorageArtifact::ImageLibrary, src, dst);
            let s = merge_dir_steps(s, StorageArtifact::AppIcons, src, dst);
            merge_database_steps(s, src, dst)
        },
    }
}

/// The whole migration plan: the mode's steps followed by the journal cleanup.
pub open spec fn migration_plan(
    mode: MigrationMode,
    src: ArtifactPresence,
    dst: ArtifactPresence,
) -> Seq<MigrationStep> {
    mode_steps(mode, src, dst).push(MigrationStep::RemoveJournalFiles)
}

/// The mode that a mode name denotes, if any.
pub open spec fn mode_named(name: Seq<char>) -> Option<MigrationMode> {
    if name == "source_only"@ {
        Some(MigrationMode::SourceOnly)
    } else if name == "target_only"@ {
        Some(MigrationMode::TargetOnly)
    } else if name == "merge"@ {
        Some(MigrationMode::Merge)
    } else {
        None
    }
}

/// The error for a mode name that is not known.
pub open spec fn unsupported_mode_message(name: Seq<char>) -> Seq<char> {
    "不支持的迁移模式: "@ + name
}

/// Reads a migration mode name: `"source_only"`, `"target_only"` or `"merge"`.
pub fn parse_migration_mode(mode: &str) -> (r: Result<MigrationMode, String>)
    ensures
        match r {
            Ok(m) => mode_named(mode@) == Some(m),
            Err(e) => mode_named(mode@) is None && e@ == unsupported_mode_message(mode@),
        },
{
    if str_eq(mode, "source_only") {
        Ok(MigrationMode::SourceOnly)
    } else if str_eq(mode, "target_only") {
        Ok(MigrationMode::TargetOnly)
    } else if str_eq(mode, "merge") {
        Ok(MigrationMode::Merge)
    } else {
        Err(concat("不支持的迁移模式: ", mode))
    }
}

fn push_when(v: &mut Vec<MigrationStep>, c: bool, x: MigrationStep)
    ensures
        final(v)@ == push_if(old(v)@, c, x),
{
    if c {
        v.push(x);
    }
}

fn push_merge_dir(v: &mut Vec<MigrationStep>, a: StorageArtifact, src: &ArtifactPresence, dst: &ArtifactPresence)
    ensures
        final(v)@ == merge_dir_steps(old(v)@, a, *src, *dst),
{
    if src.contains(a) {
        push_when(v, !dst.contains(a), MigrationStep::CreateInTarget(a));
        v.push(MigrationStep::MergeTargetIntoSource(a));
        v.push(MigrationStep::RemoveFromTarget(a));
        v.push(MigrationStep::MoveToTarget(a));
    }
}

/// Plans the move of the data from an old storage directory (`src`) to a new one
/// (`dst`), given which artifacts each holds and the mode's name.
///
/// An unknown mode name is refused with `不支持的迁移模式: <mode>`.
pub fn plan_storage_migration(
    mode: &str,
    src: ArtifactPresence,
    dst: ArtifactPresence,
) -> (r: Result<Vec<MigrationStep>, String>)
    ensures
        match r {
            Ok(steps) => exists|m: MigrationMode| mode_named(mode@) == Some(m)
                && steps@ == migration_plan(m, src, dst),
            Err(e) => mode_named(mode@) is None && e@ == unsupported_mode_message(mode@),
        },
{
    let m = match parse_migration_mode(mode) {
        Ok(m) => m,
        Err(e) => {
            return Err(e);
        },
    };
    let mut v: Vec<MigrationStep> = Vec::new();
    match m {
        MigrationMode::SourceOnly => {
            push_when(&mut v, dst.clipboard_images, MigrationStep::RemoveFromTarget(StorageArtifact::ClipboardImages));
            push_when(&mut v, dst.pin_images, MigrationStep::RemoveFromTarget(StorageArtifact::PinImages));
            push_when(&mut v, dst.image_library, MigrationStep::RemoveFromTarget(StorageArtifact::ImageLibrary));
            push_when(&mut v, dst.app_icons, MigrationStep::RemoveFromTarget(StorageArtifact::AppIcons));
            push_when(&mut v, dst.database, MigrationStep::RemoveFromTarget(StorageArtifact::Database));
            push_when(&mut v, src.clipboard_images, MigrationStep::MoveToTarget(StorageArtifact::ClipboardImages));
            push_when(&mut v, src.pin_images, MigrationStep::MoveToTarget(StorageArtifact::PinImages));
            push_when(&mut v, src.image_library, MigrationStep::MoveToTarget(StorageArtifact::ImageLibrary));
            push_when(&mut v, src.app_icons, MigrationStep::MoveToTarget(StorageArtifact::AppIcons));
            push_when(&mut v, src.database, MigrationStep::MoveToTarget(StorageArtifact::Database));
        },
        MigrationMode::TargetOnly => {
            push_when(&mut v, src.clipboard_images, MigrationStep::RemoveFromSource(StorageArtifact::ClipboardImages));
            push_when(&mut v, src.pin_images, MigrationStep::RemoveFromSource(StorageArtifact::PinImages));
            push_when(&mut v, src.image_library, MigrationStep::RemoveFromSource(StorageArtifact::ImageLibrary));
            push_when(&mut v, src.app_icons, MigrationStep::RemoveFromSource(StorageArtifact::AppIcons));
            push_when(&mut v, src.database, MigrationStep::RemoveFromSource(StorageArtifact::Database));
        },
        MigrationMode::Merge => {
            push_merge_dir(&mut v, StorageArtifact::ClipboardImages, &src, &dst);
            push_merge_dir(&mut v, StorageArtifact::PinImages, &src, &dst);
            push_merge_dir(&mut v, StorageArtifact::ImageLibrary, &src, &dst);
            push_merge_dir(&mut v, StorageArtifact::AppIcons, &src, &dst);
            if src.database {
                if dst.database {
                    v.push(MigrationStep::MergeTargetDatabaseIntoSource);
                    v.push(MigrationStep::RemoveFromTarget(StorageArtifact::Database));
                }
                v.push(MigrationStep::MoveToTarget(StorageArtifact::Database));
            }
        },
    }
    v.push(MigrationStep::RemoveJournalFiles);
    assert(v@ == migration_plan(m, src, dst));
    Ok(v)
}

// ---------------------------------------------------------------------------
// What a plan does to the presence of the artifacts in the two directories.

/// The presence in (old, new) directory after one step.
pub open spec fn step_effect(
    state: (ArtifactPresence, ArtifactPresence),
    step: MigrationStep,
) -> (ArtifactPresence, ArtifactPresence) {
    let (src, dst) = state;
    match step {
        MigrationStep::RemoveFromTarget(a) => (src, dst.with(a, false)),
        MigrationStep::RemoveFromSource(a) => (src.with(a, false), dst),
        MigrationStep::CreateInTarget(a) => (src, dst.with(a, true)),
        MigrationStep::MergeTargetIntoSource(a) => (src.with(a, src.has(a) || dst.has(a)), dst),
        MigrationStep::MergeTargetDatabaseIntoSource => (src, dst),
        MigrationStep::MoveToTarget(a) => if src.has(a) {
            (src.with(a, false), dst.with(a, true))
        } else {
            (src, dst)
        },
        MigrationStep::RemoveJournalFiles => (src, dst),
    }
}

/// The presence after running the steps in order.
pub open spec fn run_steps(
    steps: Seq<MigrationStep>,
    state: (ArtifactPresence, ArtifactPresence),
) -> (ArtifactPresence, ArtifactPresence)
    decreases steps.len(),
{
    if steps.len() == 0 {
        state
    } else {
        step_effect(run_steps(steps.drop_last(), state), steps.last())
    }
}

proof fn lemma_run_push(
    steps: Seq<MigrationStep>,
    x: MigrationStep,
    state: (ArtifactPresence, ArtifactPresence),
)
    ensures
        run_steps(steps.push(x), state) == step_effect(run_steps(steps, state), x),
{
    assert(steps.push(x).drop_last() =~= steps);
}

proof fn lemma_run_push_if(
    steps: Seq<MigrationStep>,
    c: bool,
    x: MigrationStep,
    state: (ArtifactPresence, ArtifactPresence),
)
    ensures
        run_steps(push_if(steps, c, x), state) == if c {
            step_effect(run_steps(steps, state), x)
        } else {
            run_steps(steps, state)
        },
{
    if c {
        lemma_run_push(steps, x, state);
    }
}

/// What the new directory holds after a migration in the given mode.
pub open spec fn expected_target(
    mode: MigrationMode,
    src: ArtifactPresence,
    dst: ArtifactPresence,
) -> ArtifactPresence {
    match mode {
        MigrationMode::SourceOnly => src,
        MigrationMode::TargetOnly => dst,
        MigrationMode::Merge => ArtifactPresence {
            clipboard_images: src.clipboard_images || dst.clipboard_images,
            pin_images: src.pin_images || dst.pin_images,
            image_library: src.image_library || dst.image_library,
            app_icons: src.app_icons || dst.app_icons,
            database: src.database || dst.database,
        },
    }
}

/// The presence with nothing present.
pub open spec fn nothing_present() -> ArtifactPresence {
    ArtifactPresence {
        clipboard_images: false,
        pin_images: false,
        image_library: false,
        app_icons: false,
        database: false,
    }
}

proof fn lemma_merge_dir_effect(
    s: Seq<MigrationStep>,
    a: StorageArtifact,
    src: ArtifactPresence,
    dst: ArtifactPresence,
    state: (ArtifactPresence, ArtifactPresence),
)
    requires
        state.0.has(a) == src.has(a),
        state.1.has(a) == dst.has(a),
        run_steps(s, (src, dst)) == state,
    ensures
        run_steps(merge_dir_steps(s, a, src, dst), (src, dst)) == (
            state.0.with(a, false),
            state.1.with(a, src.has(a) || dst.has(a)),
        ),
{
    if src.has(a) {
        let s1 = push_if(s, !dst.has(a), MigrationStep::CreateInTarget(a));
        lemma_run_push_if(s, !dst.has(a), MigrationStep::CreateInTarget(a), (src, dst));
        let s2 = s1.push(MigrationStep::MergeTargetIntoSource(a));
        lemma_run_push(s1, MigrationStep::MergeTargetIntoSource(a), (src, dst));
        let s3 = s2.push(MigrationStep::RemoveFromTarget(a));
        lemma_run_push(s2, MigrationStep::RemoveFromTarget(a), (src, dst));
        lemma_run_push(s3, MigrationStep::MoveToTarget(a), (src, dst));
        assert(state.1.with(a, true).with(a, false).with(a, true) =~= state.1.with(a, true));
        assert(state.0.with(a, true).with(a, false) =~= state.0.with(a, false));
    } else {
        assert(state.0.with(a, false) =~= state.0);
        assert(state.1.with(a, dst.has(a)) =~= state.1);
    }
}

proof fn lemma_remove_from_target(src: ArtifactPresence, dst: ArtifactPresence)
    ensures
        run_steps(remove_from_target_steps(dst), (src, dst)) == (src, nothing_present()),
{
    let st = (src, dst);
    let e = Seq::<MigrationStep>::empty();
    let a0 = StorageArtifact::ClipboardImages;
    let a1 = StorageArtifact::PinImages;
    let a2 = StorageArtifact::ImageLibrary;
    let a3 = StorageArtifact::AppIcons;
    let a4 = StorageArtifact::Database;
    let s1 = push_if(e, dst.clipboard_images, MigrationStep::RemoveFromTarget(a0));
    let s2 = push_if(s1, dst.pin_images, MigrationStep::RemoveFromTarget(a1));
    let s3 = push_if(s2, dst.image_library, MigrationStep::RemoveFromTarget(a2));
    let s4 = push_if(s3, dst.app_icons, MigrationStep::RemoveFromTarget(a3));
    lemma_run_push_if(e, dst.clipboard_images, MigrationStep::RemoveFromTarget(a0), st);
    lemma_run_push_if(s1, dst.pin_images, MigrationStep::RemoveFromTarget(a1), st);
    lemma_run_push_if(s2, dst.image_library, MigrationStep::RemoveFromTarget(a2), st);
    lemma_run_push_if(s3, dst.app_icons, MigrationStep::RemoveFromTarget(a3), st);
    lemma_run_push_if(s4, dst.database, MigrationStep::RemoveFromTarget(a4), st);
}

proof fn lemma_move_all(
    s5: Seq<MigrationStep>,
    src: ArtifactPresence,
    st: (ArtifactPresence, ArtifactPresence),
)
    requires
        run_steps(s5, st) == (src, nothing_present()),
    ensures
        run_steps(move_steps(s5, src), st) == (nothing_present(), src),
{
    let a0 = StorageArtifact::ClipboardImages;
    let a1 = StorageArtifact::PinImages;
    let a2 = StorageArtifact::ImageLibrary;
    let a3 = StorageArtifact::AppIcons;
    let a4 = StorageArtifact::Database;
    let t1 = push_if(s5, src.clipboard_images, MigrationStep::MoveToTarget(a0));
    let t2 = push_if(t1, src.pin_images, MigrationStep::MoveToTarget(a1));
    let t3 = push_if(t2, src.image_library, MigrationStep::MoveToTarget(a2));
    let t4 = push_if(t3, src.app_icons, MigrationStep::MoveToTarget(a3));
    lemma_run_push_if(s5, src.clipboard_images, MigrationStep::MoveToTarget(a0), st);
    lemma_run_push_if(t1, src.pin_images, MigrationStep::MoveToTarget(a1), st);
    lemma_run_push_if(t2, src.image_library, MigrationStep::MoveToTarget(a2), st);
    lemma_run_push_if(t3, src.app_icons, MigrationStep::MoveToTarget(a3), st);
    lemma_run_push_if(t4, src.database, MigrationStep::MoveToTarget(a4), st);
}

proof fn lemma_source_only(src: ArtifactPresence, dst: ArtifactPresence)
    ensures
        run_steps(mode_steps(MigrationMode::SourceOnly, src, dst), (src, dst)) == (
            nothing_present(),
            src,
        ),
{
    lemma_remove_from_target(src, dst);
    lemma_move_all(remove_from_target_steps(dst), src, (src, dst));
}

proof fn lemma_target_only(src: ArtifactPresence, dst: ArtifactPresence)
    ensures
        run_steps(mode_steps(MigrationMode::TargetOnly, src, dst), (src, dst)) == (
            nothing_present(),
            dst,
        ),
{
    let st = (src, dst);
    let e = Seq::<MigrationStep>::empty();
    let a0 = StorageArtifact::ClipboardImages;
    let a1 = StorageArtifact::PinImages;
    let a2 = StorageArtifact::ImageLibrary;
    let a3 = StorageArtifact::AppIcons;
    let a4 = StorageArtifact::Database;
    let s1 = push_if(e, src.clipboard_images, MigrationStep::RemoveFromSource(a0));
    let s2 = push_if(s1, src.pin_images, MigrationStep::RemoveFromSource(a1));
    let s3 = push_if(s2, src.image_library, MigrationStep::RemoveFromSource(a2));
    let s4 = push_if(s3, src.app_icons, MigrationStep::RemoveFromSource(a3));
    lemma_run_push_if(e, src.clipboard_images, MigrationStep::RemoveFromSource(a0), st);
    lemma_run_push_if(s1, src.pin_images, MigrationStep::RemoveFromSource(a1), st);
    lemma_run_push_if(s2, src.image_library, MigrationStep::RemoveFromSource(a2), st);
    lemma_run_push_if(s3, src.app_icons, MigrationStep::RemoveFromSource(a3), st);
    lemma_run_push_if(s4, src.database, MigrationStep::RemoveFromSource(a4), st);
}

proof fn lemma_merge(src: ArtifactPresence, dst: ArtifactPresence)
    ensures
        run_steps(mode_steps(MigrationMode::Merge, src, dst), (src, dst)) == (
            nothing_present(),
            expected_target(MigrationMode::Merge, src, dst),
        ),
{
    let st = (src, dst);
    let e = Seq::<MigrationStep>::empty();
    let a0 = StorageArtifact::ClipboardImages;
    let a1 = StorageArtifact::PinImages;
    let a2 = StorageArtifact::ImageLibrary;
    let a3 = StorageArtifact::AppIcons;
    let s1 = merge_dir_steps(e, a0, src, dst);
    let s2 = merge_dir_steps(s1, a1, src, dst);
    let s3 = merge_dir_steps(s2, a2, src, dst);
    let s4 = merge_dir_steps(s3, a3, src, dst);
    lemma_merge_dir_effect(e, a0, src, dst, st);
    let st1 = run_steps(s1, st);
    lemma_merge_dir_effect(s1, a1, src, dst, st1);
    let st2 = run_steps(s2, st);
    lemma_merge_dir_effect(s2, a2, src, dst, st2);
    let st3 = run_steps(s3, st);
    lemma_merge_dir_effect(s3, a3, src, dst, st3);
    let d = StorageArtifact::Database;
    if src.database {
        if dst.database {
            let u1 = s4.push(MigrationStep::MergeTargetDatabaseIntoSource);
            let u2 = u1.push(MigrationStep::RemoveFromTarget(d));
            lemma_run_push(s4, MigrationStep::MergeTargetDatabaseIntoSource, st);
            lemma_run_push(u1, MigrationStep::RemoveFromTarget(d), st);
            lemma_run_push(u2, MigrationStep::MoveToTarget(d), st);
        } else {
            lemma_run_push(s4, MigrationStep::MoveToTarget(d), st);
        }
    }
}

/// After a migration, the old directory holds none of the artifacts, and the new
/// directory holds an artifact exactly when: (`source_only`) the old directory held
/// it; (`target_only`) the new directory held it; (`merge`) either held it.
pub proof fn migration_moves_everything(
    mode: MigrationMode,
    src: ArtifactPresence,
    dst: ArtifactPresence,
)
    ensures
        run_steps(migration_plan(mode, src, dst), (src, dst)) == (
            nothing_present(),
            expected_target(mode, src, dst),
        ),
{
    lemma_run_push(mode_steps(mode, src, dst), MigrationStep::RemoveJournalFiles, (src, dst));
    match mode {
        MigrationMode::SourceOnly => lemma_source_only(src, dst),
        MigrationMode::TargetOnly => lemma_target_only(src, dst),
        MigrationMode::Merge => lemma_merge(src, dst),
    }
}

/// The files of one artifact directory, by name, in the old and in the new
/// directory (each name to what the file holds).
pub open spec fn file_step(
    state: (Map<Seq<char>, Seq<u8>>, Map<Seq<char>, Seq<u8>>),
    a: StorageArtifact,
    step: MigrationStep,
) -> (Map<Seq<char>, Seq<u8>>, Map<Seq<char>, Seq<u8>>) {
    match step {
        MigrationStep::RemoveFromTarget(b) => if b == a {
            (state.0, Map::empty())
        } else {
            state
        },
        MigrationStep::RemoveFromSource(b) => if b == a {
            (Map::empty(), state.1)
        } else {
            state
        },
        MigrationStep::MergeTargetIntoSource(b) => if b == a {
            (state.1.union_prefer_right(state.0), state.1)
        } else {
            state
        },
        MigrationStep::MoveToTarget(b) => if b == a {
            (Map::empty(), state.0)
        } else {
            state
        },
        _ => state,
    }
}

/// The files of one artifact directory after the steps (see [`file_step`]).
pub open spec fn run_file_steps(
    steps: Seq<MigrationStep>,
    a: StorageArtifact,
    state: (Map<Seq<char>, Seq<u8>>, Map<Seq<char>, Seq<u8>>),
) -> (Map<Seq<char>, Seq<u8>>, Map<Seq<char>, Seq<u8>>)
    decreases steps.len(),
{
    if steps.len() == 0 {
        state
    } else {
        file_step(run_file_steps(steps.drop_last(), a, state), a, steps.last())
    }
}

proof fn lemma_file_run_push(
    steps: Seq<MigrationStep>,
    x: MigrationStep,
    a: StorageArtifact,
    state: (Map<Seq<char>, Seq<u8>>, Map<Seq<char>, Seq<u8>>),
)
    ensures
        run_file_steps(steps.push(x), a, state) == file_step(run_file_steps(steps, a, state), a, x),
{
    assert(steps.push(x).drop_last() =~= steps);
}

proof fn lemma_file_merge_dir(
    s: Seq<MigrationStep>,
    b: StorageArtifact,
    a: StorageArtifact,
    src: ArtifactPresence,
    dst: ArtifactPresence,
    state: (Map<Seq<char>, Seq<u8>>, Map<Seq<char>, Seq<u8>>),
)
    ensures
        run_file_steps(merge_dir_steps(s, b, src, dst), a, state) == if b == a && src.has(a) {
            (
                Map::<Seq<char>, Seq<u8>>::empty(),
                run_file_steps(s, a, state).1.union_prefer_right(run_file_steps(s, a, state).0),
            )
        } else {
            run_file_steps(s, a, state)
        },
{
    if src.has(b) {
        let s1 = push_if(s, !dst.has(b), MigrationStep::CreateInTarget(b));
        if !dst.has(b) {
            lemma_file_run_push(s, MigrationStep::CreateInTarget(b), a, state);
        }
        let s2 = s1.push(MigrationStep::MergeTargetIntoSource(b));
        lemma_file_run_push(s1, MigrationStep::MergeTargetIntoSource(b), a, state);
        let s3 = s2.push(MigrationStep::RemoveFromTarget(b));
        lemma_file_run_push(s2, MigrationStep::RemoveFromTarget(b), a, state);
        lemma_file_run_push(s3, MigrationStep::MoveToTarget(b), a, state);
    }
}

/// A merge keeps the old directory's files: afterwards the new directory's
/// copy of an artifact directory holds every file of the old directory's copy,
/// unchanged, and the files of its own earlier copy whose names the old one
/// lacks; the old directory keeps none. (An artifact that a directory does not
/// hold has no files there.)
pub proof fn merge_keeps_old_files(
    src: ArtifactPresence,
    dst: ArtifactPresence,
    a: StorageArtifact,
    old_files: Map<Seq<char>, Seq<u8>>,
    new_files: Map<Seq<char>, Seq<u8>>,
)
    requires
        a != StorageArtifact::Database,
        !src.has(a) ==> old_files == Map::<Seq<char>, Seq<u8>>::empty(),
    ensures
        run_file_steps(migration_plan(MigrationMode::Merge, src, dst), a, (old_files, new_files)) == (
            Map::<Seq<char>, Seq<u8>>::empty(),
            new_files.union_prefer_right(old_files),
        ),
{
    let st = (old_files, new_files);
    let e = Seq::<MigrationStep>::empty();
    let s1 = merge_dir_steps(e, StorageArtifact::ClipboardImages, src, dst);
    let s2 = merge_dir_steps(s1, StorageArtifact::PinImages, src, dst);
    let s3 = merge_dir_steps(s2, StorageArtifact::ImageLibrary, src, dst);
    let s4 = merge_dir_steps(s3, StorageArtifact::AppIcons, src, dst);
    lemma_file_merge_dir(e, StorageArtifact::ClipboardImages, a, src, dst, st);
    lemma_file_merge_dir(s1, StorageArtifact::PinImages, a, src, dst, st);
    lemma_file_merge_dir(s2, StorageArtifact::ImageLibrary, a, src, dst, st);
    lemma_file_merge_dir(s3, StorageArtifact::AppIcons, a, src, dst, st);
    let d = StorageArtifact::Database;
    if src.database {
        if dst.database {
            let u1 = s4.push(MigrationStep::MergeTargetDatabaseIntoSource);
            let u2 = u1.push(MigrationStep::RemoveFromTarget(d));
            lemma_file_run_push(s4, MigrationStep::MergeTargetDatabaseIntoSource, a, st);
            lemma_file_run_push(u1, MigrationStep::RemoveFromTarget(d), a, st);
            lemma_file_run_push(u2, MigrationStep::MoveToTarget(d), a, st);
        } else {
            lemma_file_run_push(s4, MigrationStep::MoveToTarget(d), a, st);
        }
    }
    lemma_file_run_push(mode_steps(MigrationMode::Merge, src, dst), MigrationStep::RemoveJournalFiles, a, st);
    if !src.has(a) {
        assert(new_files.union_prefer_right(old_files) =~= new_files);
    }
}

// ---------------------------------------------------------------------------
// Cleanup of a storage directory.

/// One item that a reset deletes from a storage directory.
#[derive(Clone, Copy, Debug, PartialEq, Eq, Structural)]
pub enum CleanupTarget {
    /// A directory, deleted with its contents.
    Dir(StorageArtifact),
    /// `quickclipboard.db`
    DatabaseFile,
    /// `quickclipboard.db-shm`
    SharedMemoryFile,
    /// `quickclipboard.db-wal`
    WriteAheadLogFile,
}

/// The items that a cleanup deletes, in order.
pub open spec fn cleanup_targets_spec() -> Seq<CleanupTarget> {
    seq![
        CleanupTarget::Dir(StorageArtifact::ClipboardImages),
        CleanupTarget::Dir(StorageArtifact::PinImages),
        CleanupTarget::Dir(StorageArtifact::ImageLibrary),
        CleanupTarget::Dir(StorageArtifact::AppIcons),
        CleanupTarget::DatabaseFile,
        CleanupTarget::SharedMemoryFile,
        CleanupTarget::WriteAheadLogFile,
    ]
}

/// The items that `clean_storage_artifacts` deletes from a directory, in the order
/// in which it deletes them; it stops at the first failure.
pub fn cleanup_targets() -> (r: Vec<CleanupTarget>)
    ensures
        r@ == cleanup_targets_spec(),
{
    let mut v = Vec::new();
    v.push(CleanupTarget::Dir(StorageArtifact::ClipboardImages));
    v.push(CleanupTarget::Dir(StorageArtifact::PinImages));
    v.push(CleanupTarget::Dir(StorageArtifact::ImageLibrary));
    v.push(CleanupTarget::Dir(StorageArtifact::AppIcons));
    v.push(CleanupTarget::DatabaseFile);
    v.push(CleanupTarget::SharedMemoryFile);
    v.push(CleanupTarget::WriteAheadLogFile);
    assert(v@ =~= cleanup_targets_spec());
    v
}

// ---------------------------------------------------------------------------
// Requests from the settings page.

/// The migration mode used when a request names none.
pub open spec fn default_mode() -> Seq<char> {
    "source_only"@
}

/// The migration mode used when a request names none: `source_only`.
pub fn default_source_only() -> (r: String)
    ensures
        r@ == default_mode(),
{
    owned("source_only")
}

/// A request to move the data to a new directory.
pub struct ChangePathPayload {
    pub new_path: String,
    pub mode: String,
}

/// A request to move the data back to the default directory.
pub struct ResetPathPayload {
    pub mode: String,
}

/// A request to look at what a directory already holds.
pub struct CheckTargetPayload {
    pub target_path: String,
}

impl ChangePathPayload {
    /// The request, with `source_only` when no mode is given.
    pub fn new(new_path: String, mode: Option<String>) -> (r: ChangePathPayload)
        ensures
            r.new_path@ == new_path@,
            r.mode@ == match mode {
                Some(m) => m@,
                None => default_mode(),
            },
    {
        let mode = match mode {
            Some(m) => m,
            None => default_source_only(),
        };
        ChangePathPayload { new_path, mode }
    }
}

impl ResetPathPayload {
    /// The request, with `source_only` when no mode is given.
    pub fn new(mode: Option<String>) -> (r: ResetPathPayload)
        ensures
            r.mode@ == match mode {
                Some(m) => m@,
                None => default_mode(),
            },
    {
        let mode = match mode {
            Some(m) => m,
            None => default_source_only(),
        };
        ResetPathPayload { mode }
    }
}

// ---------------------------------------------------------------------------
// What a directory holds.

/// What a directory already holds, as reported before a migration.
pub struct TargetDataInfo {
    pub has_data: bool,
    pub has_database: bool,
    pub has_images: bool,
    pub has_image_library: bool,
    pub database_size: u64,
    pub images_count: usize,
    pub images_size: u64,
    pub image_library_count: usize,
    pub image_library_size: u64,
}

/// The total of a list of sizes.
pub open spec fn total(sizes: Seq<u64>) -> int
    decreases sizes.len(),
{
    if sizes.len() == 0 {
        0
    } else {
        total(sizes.drop_last()) + sizes.last()
    }
}

proof fn lemma_total_monotone(sizes: Seq<u64>, i: int)
    requires
        0 <= i <= sizes.len(),
    ensures
        0 <= total(sizes.take(i)) <= total(sizes),
    decreases sizes.len() - i,
{
    if i < sizes.len() {
        lemma_total_monotone(sizes, i + 1);
        assert(sizes.take(i + 1).drop_last() =~= sizes.take(i));
    } else {
        assert(sizes.take(i) =~= sizes);
    }
    lemma_total_nonneg(sizes.take(i));
}

proof fn lemma_total_nonneg(sizes: Seq<u64>)
    ensures
        total(sizes) >= 0,
    decreases sizes.len(),
{
    if sizes.len() > 0 {
        lemma_total_nonneg(sizes.drop_last());
    }
}

/// The number of files and their total size.
fn count_and_size(sizes: &Vec<u64>) -> (r: (usize, u64))
    requires
        total(sizes@) <= u64::MAX,
    ensures
        r.0 == sizes.len(),
        r.1 == total(sizes@),
{
    let mut size: u64 = 0;
    let mut i: usize = 0;
    while i < sizes.len()
        invariant
            i <= sizes.len(),
            total(sizes@) <= u64::MAX,
            size == total(sizes@.take(i as int)),
        decreases sizes.len() - i,
    {
        proof {
            lemma_total_monotone(sizes@, i + 1);
            assert(sizes@.take(i + 1).drop_last() =~= sizes@.take(i as int));
        }
        size = size + sizes[i];
        i = i + 1;
    }
    assert(sizes@.take(i as int) =~= sizes@);
    (i, size)
}

/// What the three scans of a directory found add up to: the database (its size
/// when the file exists), the files of `clipboard_images` and those of
/// `image_library` (their sizes when the directory exists). A directory that
/// exists but holds no file does not count as data.
pub fn check_target_has_data(
    database_size: Option<u64>,
    images: Option<Vec<u64>>,
    image_library: Option<Vec<u64>>,
) -> (r: Result<TargetDataInfo, String>)
    requires
        match images {
            Some(v) => total(v@) <= u64::MAX,
            None => true,
        },
        match image_library {
            Some(v) => total(v@) <= u64::MAX,
            None => true,
        },
    ensures
        r matches Ok(info) && {
            &&& info.has_database == database_size is Some
            &&& info.database_size == match database_size {
                Some(n) => n,
                None => 0,
            }
            &&& info.images_count == match images {
                Some(v) => v.len(),
                None => 0,
            }
            &&& info.images_size == match images {
                Some(v) => total(v@),
                None => 0,
            }
            &&& info.has_images == (info.images_count > 0)
            &&& info.image_library_count == match image_library {
                Some(v) => v.len(),
                None => 0,
            }
            &&& info.image_library_size == match image_library {
                Some(v) => total(v@),
                None => 0,
            }
            &&& info.has_image_library == (info.image_library_count > 0)
            &&& info.has_data == (info.has_database || info.has_images || info.has_image_library)
        },
{
    let has_database = database_size.is_some();
    let db_size = match database_size {
        Some(n) => n,
        None => 0,
    };
    let (images_count, images_size) = match &images {
        Some(v) => count_and_size(v),
        None => (0, 0),
    };
    let (image_library_count, image_library_size) = match &image_library {
        Some(v) => count_and_size(v),
        None => (0, 0),
    };
    let has_images = images_count > 0;
    let has_image_library = image_library_count > 0;
    Ok(TargetDataInfo {
        has_data: has_database || has_images || has_image_library,
        has_database,
        has_images,
        has_image_library,
        database_size: db_size,
        images_count,
        images_size,
        image_library_count,
        image_library_size,
    })
}

// ---------------------------------------------------------------------------
// Whether two directories are the same.

/// A canonical Windows path without its verbatim prefix: `\\?\UNC\server`
/// becomes `\\server`, `\\?\C:` becomes `C:`.
pub open spec fn without_verbatim_prefix(c: Seq<char>) -> Seq<char> {
    if has_prefix(c, "\\\\?\\UNC\\"@) {
        "\\\\"@ + c.skip(8)
    } else if has_prefix(c, "\\\\?\\"@) {
        c.skip(4)
    } else {
        c
    }
}

/// The form in which two canonical paths are compared. On Windows (`windows`):
/// no verbatim prefix, `\\` as the only separator, ASCII letters in lower case;
/// elsewhere the canonical path as it is.
pub open spec fn comparison_key(canonical: Seq<char>, windows: bool) -> Seq<char> {
    if windows {
        ascii_lowered(replaced_char(without_verbatim_prefix(canonical), '/', '\\'))
    } else {
        canonical
    }
}

/// The error when a path cannot be made canonical.
pub open spec fn canonical_failure(path: Seq<char>, error: Seq<char>) -> Seq<char> {
    "规范化路径失败 ["@ + path + "]: "@ + error
}

fn strip_verbatim(c: &Vec<char>) -> (r: Vec<char>)
    ensures
        r@ == without_verbatim_prefix(c@),
{
    let unc = chars_of("\\\\?\\UNC\\");
    let verbatim = chars_of("\\\\?\\");
    proof {
        reveal_strlit("\\\\?\\UNC\\");
        reveal_strlit("\\\\?\\");
        reveal_strlit("\\\\");
    }
    if starts_with(c, &unc) {
        let mut out: Vec<char> = Vec::new();
        out.push('\\');
        out.push('\\');
        let mut i: usize = 8;
        while i < c.len()
            invariant
                8 <= i <= c.len(),
                out@ == "\\\\"@ + c@.subrange(8, i as int),
            decreases c.len() - i,
        {
            out.push(c[i]);
            i = i + 1;
            assert(c@.subrange(8, i as int) =~= c@.subrange(8, i - 1).push(c@[i - 1]));
        }
        assert(c@.subrange(8, c.len() as int) =~= c@.skip(8));
        out
    } else if starts_with(c, &verbatim) {
        let mut out: Vec<char> = Vec::new();
        let mut i: usize = 4;
        while i < c.len()
            invariant
                4 <= i <= c.len(),
                out@ == c@.subrange(4, i as int),
            decreases c.len() - i,
        {
            out.push(c[i]);
            i = i + 1;
            assert(c@.subrange(4, i as int) =~= c@.subrange(4, i - 1).push(c@[i - 1]));
        }
        assert(c@.subrange(4, c.len() as int) =~= c@.skip(4));
        out
    } else {
        c.clone()
    }
}

/// The form in which a path is compared with another (see [`comparison_key`]),
/// given the outcome of making it canonical; the failure is reported with the path.
pub fn normalize_path_for_comparison(
    path: &str,
    canonical: Result<String, String>,
    windows: bool,
) -> (r: Result<
    String,
    String,
>)
    ensures
        match canonical {
            Ok(c) => r matches Ok(k) && k@ == comparison_key(c@, windows),
            Err(e) => r matches Err(m) && m@ == canonical_failure(path@, e@),
        },
{
    match canonical {
        Ok(c) => {
            if !windows {
                return Ok(c);
            }
            let stripped = strip_verbatim(&chars_of(c.as_str()));
            let slashed = replace_char(&stripped, '/', '\\');
            Ok(string_from(&to_ascii_lowercase(&slashed)))
        },
        Err(e) => {
            let mut m = owned("规范化路径失败 [");
            append(&mut m, path);
            append(&mut m, "]: ");
            append(&mut m, e.as_str());
            Err(m)
        },
    }
}

/// Whether two directories are the same place, given the outcome of making
/// each canonical: their comparison keys are equal. The first failure is reported.
pub fn paths_refer_to_same_location(
    left: &str,
    left_canonical: Result<String, String>,
    right: &str,
    right_canonical: Result<String, String>,
    windows: bool,
) -> (r: Result<bool, String>)
    ensures
        match (left_canonical, right_canonical) {
            (Err(e), _) => r matches Err(m) && m@ == canonical_failure(left@, e@),
            (Ok(_), Err(e)) => r matches Err(m) && m@ == canonical_failure(right@, e@),
            (Ok(a), Ok(b)) => r == Ok::<bool, String>(
                comparison_key(a@, windows) == comparison_key(b@, windows),
            ),
        },
{
    let a = normalize_path_for_comparison(left, left_canonical, windows)?;
    let b = normalize_path_for_comparison(right, right_canonical, windows)?;
    Ok(str_eq(a.as_str(), b.as_str()))
}

// ---------------------------------------------------------------------------
// Where the data lives.

/// The error when the settings file has no directory.
pub open spec fn no_default_dir_message() -> Seq<char> {
    "无法获取默认数据目录"@
}

/// The default data directory: the directory of the settings file.
pub fn get_default_data_dir(settings_path: Result<String, String>) -> (r: Result<String, String>)
    ensures
        match settings_path {
            Err(e) => r matches Err(m) && m@ == e@,
            Ok(p) => match parent_path(p@) {
                Some(d) => r matches Ok(x) && x@ == d,
                None => r matches Err(m) && m@ == no_default_dir_message(),
            },
        },
{
    let p = settings_path?;
    match parent_dir(p.as_str()) {
        Some(d) => Ok(d),
        None => Err(owned("无法获取默认数据目录")),
    }
}

/// The directory that holds the data now (see `get_data_directory`).
pub fn get_current_storage_dir(load_error: &Option<String>, storage_dir: Result<String, String>) -> (r:
    Result<String, String>)
    ensures
        match load_error {
            Some(e) => r matches Err(m) && m@ == settings_load_failure(e@),
            None => match storage_dir {
                Ok(d) => r matches Ok(x) && x@ == d@,
                Err(e) => r matches Err(x) && x@ == e@,
            },
        },
{
    get_data_directory(load_error, storage_dir)
}

/// The database file of a data directory.
pub open spec fn database_path(dir: Seq<char>, sep: char) -> Seq<char> {
    joined_path(dir, "quickclipboard.db"@, sep)
}

/// A planned change of the data directory.
pub struct StorageChange {
    /// The steps that move the data, in order.
    pub steps: Vec<MigrationStep>,
    /// The settings to save once the data has moved.
    pub settings: AppSettings,
    /// The database to open afterwards.
    pub database_path: String,
    /// The new data directory.
    pub data_dir: String,
}

/// The error when the new directory is the current one.
pub open spec fn same_location_message() -> Seq<char> {
    "新位置与当前存储位置相同，无需迁移"@
}

/// The error when the data already lives in the default directory.
pub open spec fn already_default_message() -> Seq<char> {
    "当前已在默认存储位置"@
}

/// Plans the move of the data to `new_dir`: refused when the two directories are
/// the same place (or cannot be compared) and for an unknown mode; otherwise the
/// migration steps, the settings with the custom directory, and the database to open.
pub fn change_storage_dir(
    new_dir: &str,
    mode: &str,
    same_location: Result<bool, String>,
    src: ArtifactPresence,
    dst: ArtifactPresence,
    settings: AppSettings,
    sep: char,
) -> (r: Result<StorageChange, String>)
    ensures
        match same_location {
            Err(e) => r matches Err(m) && m@ == e@,
            Ok(true) => r matches Err(m) && m@ == same_location_message(),
            Ok(false) => match mode_named(mode@) {
                None => r matches Err(m) && m@ == unsupported_mode_message(mode@),
                Some(md) => r matches Ok(c) && c.steps@ == migration_plan(md, src, dst)
                    && c.settings@ == (SettingsView {
                    use_custom_storage: true,
                    custom_storage_path: Some(new_dir@),
                    ..settings@
                }) && c.database_path@ == database_path(new_dir@, sep) && c.data_dir@ == new_dir@,
            },
        },
{
    let same = same_location?;
    if same {
        return Err(owned("新位置与当前存储位置相同，无需迁移"));
    }
    let steps = plan_storage_migration(mode, src, dst)?;
    let settings = with_custom_storage(settings, new_dir);
    Ok(StorageChange {
        steps,
        settings,
        database_path: join(new_dir, "quickclipboard.db", sep),
        data_dir: owned(new_dir),
    })
}

/// Plans the move of the data back to the default directory: refused when the
/// data is already there (or the directories cannot be compared) and for an
/// unknown mode; otherwise the migration steps, the settings without a custom
/// directory, and the database to open.
pub fn reset_storage_dir_to_default(
    mode: &str,
    default_dir: &str,
    same_location: Result<bool, String>,
    src: ArtifactPresence,
    dst: ArtifactPresence,
    settings: AppSettings,
    sep: char,
) -> (r: Result<StorageChange, String>)
    ensures
        match same_location {
            Err(e) => r matches Err(m) && m@ == e@,
            Ok(true) => r matches Err(m) && m@ == already_default_message(),
            Ok(false) => match mode_named(mode@) {
                None => r matches Err(m) && m@ == unsupported_mode_message(mode@),
                Some(md) => r matches Ok(c) && c.steps@ == migration_plan(md, src, dst)
                    && c.settings@ == (SettingsView {
                    use_custom_storage: false,
                    custom_storage_path: None,
                    ..settings@
                }) && c.database_path@ == database_path(default_dir@, sep) && c.data_dir@
                    == default_dir@,
            },
        },
{
    let same = same_location?;
    if same {
        return Err(owned("当前已在默认存储位置"));
    }
    let steps = plan_storage_migration(mode, src, dst)?;
    let settings = with_default_storage(settings);
    Ok(StorageChange {
        steps,
        settings,
        database_path: join(default_dir, "quickclipboard.db", sep),
        data_dir: owned(default_dir),
    })
}

/// One step of a full reset, in the order in which they run; a failing step
/// ends the reset.
pub enum ResetStep {
    /// Delete the data (images, library, icons, database files) of a directory.
    Clean(String),
    /// End the reset with this error.
    Fail(String),
    /// Save these settings.
    SaveSettings(AppSettings),
    /// Open (creating it) this database, in the data directory from now on.
    OpenDatabase(String),
}

/// A reset step with its texts and settings as values.
pub enum ResetStepView {
    Clean(Seq<char>),
    Fail(Seq<char>),
    SaveSettings(SettingsView),
    OpenDatabase(Seq<char>),
}

impl View for ResetStep {
    type V = ResetStepView;

    open spec fn view(&self) -> ResetStepView {
        match self {
            ResetStep::Clean(d) => ResetStepView::Clean(d@),
            ResetStep::Fail(e) => ResetStepView::Fail(e@),
            ResetStep::SaveSettings(s) => ResetStepView::SaveSettings(s@),
            ResetStep::OpenDatabase(p) => ResetStepView::OpenDatabase(p@),
        }
    }
}

/// The steps of a full reset: the current directory is cleaned first; then,
/// when it cannot be compared with the default directory, the reset fails;
/// otherwise the default directory is cleaned too when it is another place,
/// every setting returns to its default (data in the default directory), and a
/// new database is opened in the default directory.
pub open spec fn reset_plan(
    current_dir: Seq<char>,
    default_dir: Seq<char>,
    same_location: Result<bool, Seq<char>>,
    sep: char,
) -> Seq<ResetStepView> {
    let first = seq![ResetStepView::Clean(current_dir)];
    match same_location {
        Err(e) => first.push(ResetStepView::Fail(e)),
        Ok(same) => {
            let s = if same {
                first
            } else {
                first.push(ResetStepView::Clean(default_dir))
            };
            s.push(
                ResetStepView::SaveSettings(
                    SettingsView {
                        use_custom_storage: false,
                        custom_storage_path: None,
                        ..default_settings()
                    },
                ),
            ).push(ResetStepView::OpenDatabase(database_path(default_dir, sep)))
        },
    }
}

/// Plans a full reset (see [`reset_plan`]), given whether the current
/// directory is the default one.
pub fn reset_all_data(
    current_dir: &str,
    default_dir: &str,
    same_location: Result<bool, String>,
    sep: char,
) -> (r: Vec<ResetStep>)
    ensures
        r@.map_values(|s: ResetStep| s@) == reset_plan(
            current_dir@,
            default_dir@,
            match same_location {
                Ok(b) => Ok(b),
                Err(e) => Err(e@),
            },
            sep,
        ),
{
    let mut steps: Vec<ResetStep> = Vec::new();
    steps.push(ResetStep::Clean(owned(current_dir)));
    match same_location {
        Err(e) => {
            steps.push(ResetStep::Fail(e));
        },
        Ok(same) => {
            if !same {
                steps.push(ResetStep::Clean(owned(default_dir)));
            }
            steps.push(ResetStep::SaveSettings(with_default_storage(AppSettings::default())));
            steps.push(ResetStep::OpenDatabase(join(default_dir, "quickclipboard.db", sep)));
        },
    }
    assert(steps@.map_values(|s: ResetStep| s@) =~= reset_plan(
        current_dir@,
        default_dir@,
        match same_location {
            Ok(b) => Ok(b),
            Err(e) => Err(e@),
        },
        sep,
    ));
    steps
}

} // verus!
