//! One sync invocation: planning which downloads happen and the model of
//! how the dispatched tasks' outcomes change the local file tree. The
//! manifest is fetched and each file transferred by the surrounding I/O
//! layer; here is everything that is decided about them, and the laws the
//! whole cycle obeys.

use vstd::prelude::*;

use crate::local::{
    current_at, lemma_store_lookup_other, lemma_store_lookup_same, lookup, store, FileModel,
    LocalFile, Snapshot,
};
use crate::manifest::{paths_unique, Category, EntryModel, ManifestModel, ResourceManifest};
use crate::resolve::{
    entry_stale, resolve_stale, stale_of, task_models, tasks_for, DownloadTask, TaskModel,
};

verus! {

/// Mathematical model of one task's terminal outcome: the full content
/// arrived and was written; nothing was written; or the transfer broke off
/// leaving a partial file on disk.
pub enum OutcomeModel {
    Success { content: Seq<u8> },
    FailedNoWrite,
    FailedPartial { content: Seq<u8> },
}

/// One task's terminal outcome, as the transfer layer observed it. A
/// failure before the destination file was created leaves the local state
/// untouched; a failure mid-stream leaves whatever bytes were already
/// written.
pub enum TaskOutcome {
    Success(Vec<u8>),
    FailedNoWrite,
    FailedPartial(Vec<u8>),
}

impl View for TaskOutcome {
    type V = OutcomeModel;

    open spec fn view(&self) -> OutcomeModel {
        match self {
            TaskOutcome::Success(content) => OutcomeModel::Success { content: content@ },
            TaskOutcome::FailedNoWrite => OutcomeModel::FailedNoWrite,
            TaskOutcome::FailedPartial(content) => OutcomeModel::FailedPartial {
                content: content@,
            },
        }
    }
}

/// The models of a sequence of outcomes.
pub open spec fn outcome_models(s: Seq<TaskOutcome>) -> Seq<OutcomeModel> {
    s.map_values(|o: TaskOutcome| o@)
}

/// The relative paths of a sequence of entries.
pub open spec fn entry_paths(es: Seq<EntryModel>) -> Seq<Seq<char>> {
    es.map_values(|e: EntryModel| e.path)
}

/// The relative paths of a sequence of tasks.
pub open spec fn task_paths(ts: Seq<TaskModel>) -> Seq<Seq<char>> {
    ts.map_values(|t: TaskModel| t.path)
}

/// The local state after one task's outcome: successful or interrupted
/// writes leave their bytes at the task's path, a failure before writing
/// leaves the state as it was.
pub open spec fn apply_one(
    files: Seq<(Seq<char>, FileModel)>,
    path: Seq<char>,
    out: OutcomeModel,
) -> Seq<(Seq<char>, FileModel)> {
    match out {
        OutcomeModel::Success { content } => store(files, path, FileModel::Present { content }),
        OutcomeModel::FailedNoWrite => files,
        OutcomeModel::FailedPartial { content } => store(
            files,
            path,
            FileModel::Present { content },
        ),
    }
}

/// The local state after every task's outcome, applied in task order.
pub open spec fn apply_tasks(
    files: Seq<(Seq<char>, FileModel)>,
    paths: Seq<Seq<char>>,
    outs: Seq<OutcomeModel>,
) -> Seq<(Seq<char>, FileModel)>
    decreases paths.len(),
{
    if paths.len() == 0 || outs.len() == 0 {
        files
    } else {
        apply_one(
            apply_tasks(files, paths.drop_last(), outs.drop_last()),
            paths.last(),
            outs.last(),
        )
    }
}

/// Applies one task's outcome to the observed local state.
pub fn apply_outcome(snap: &mut Snapshot, path: &String, out: TaskOutcome)
    ensures
        final(snap)@ == apply_one(old(snap)@, path@, out@),
{
    match out {
        TaskOutcome::Success(content) => snap.record(path, LocalFile::Present(content)),
        TaskOutcome::FailedNoWrite => {},
        TaskOutcome::FailedPartial(content) => snap.record(path, LocalFile::Present(content)),
    }
}

/// Applies every task's outcome to the observed local state, in task
/// order.
pub fn apply_outcomes(snap: &mut Snapshot, tasks: &Vec<DownloadTask>, outs: Vec<TaskOutcome>)
    requires
        outs@.len() == tasks@.len(),
    ensures
        final(snap)@ == apply_tasks(
            old(snap)@,
            task_paths(task_models(tasks@)),
            outcome_models(outs@),
        ),
{
    let ghost orig = snap@;
    let ghost all_paths = task_paths(task_models(tasks@));
    let ghost all_outs = outcome_models(outs@);
    let mut rest = outs;
    let n = tasks.len();
    let mut i: usize = 0;
    proof {
        assert(all_paths.take(0) =~= Seq::<Seq<char>>::empty());
        assert(all_outs.take(0) =~= Seq::<OutcomeModel>::empty());
    }
    while i < n
        invariant
            orig == old(snap)@,
            n == tasks@.len(),
            all_paths == task_paths(task_models(tasks@)),
            all_outs.len() == n,
            i <= n,
            rest@.len() == n - i,
            outcome_models(rest@) == all_outs.skip(i as int),
            snap@ == apply_tasks(orig, all_paths.take(i as int), all_outs.take(i as int)),
        decreases n - i,
    {
        let ghost rest_before = rest@;
        let out = rest.remove(0);
        proof {
            assert(outcome_models(rest_before)[0] == rest_before[0]@);
            assert(all_outs.skip(i as int)[0] == all_outs[i as int]);
            assert(out@ == all_outs[i as int]);
            assert forall|k: int| 0 <= k < rest@.len() implies outcome_models(rest@)[k]
                == all_outs.skip(i as int + 1)[k] by {
                assert(rest@[k] == rest_before[k + 1]);
                assert(outcome_models(rest_before)[k + 1] == rest_before[k + 1]@);
                assert(all_outs.skip(i as int)[k + 1] == all_outs[i as int + 1 + k]);
                assert(all_outs.skip(i as int + 1)[k] == all_outs[i as int + 1 + k]);
            }
            assert(outcome_models(rest@) =~= all_outs.skip(i as int + 1));
            assert(all_paths[i as int] == tasks@[i as int]@.path);
            assert(all_paths.take(i as int + 1).drop_last() =~= all_paths.take(i as int));
            assert(all_outs.take(i as int + 1).drop_last() =~= all_outs.take(i as int));
            assert(all_paths.take(i as int + 1).last() == all_paths[i as int]);
            assert(all_outs.take(i as int + 1).last() == all_outs[i as int]);
        }
        apply_outcome(snap, &tasks[i].relative_path, out);
        i = i + 1;
    }
    proof {
        assert(all_paths.take(n as int) =~= all_paths);
        assert(all_outs.take(n as int) =~= all_outs);
    }
}

/// A sync invocation's fixed context: where the remote repository is, which
/// version path to use, whether fonts are synced at all, the two category
/// roots, and the concurrency bound for the download phase.
pub struct SyncConfig {
    pub base_url: String,
    pub version: String,
    pub download_fonts: bool,
    pub fonts_root: String,
    pub images_root: String,
    pub concurrency: usize,
}

/// The downloads one sync will perform, per category.
pub struct SyncPlan {
    pub font_tasks: Vec<DownloadTask>,
    pub image_tasks: Vec<DownloadTask>,
}

/// The manifest model behind an optional fetch result.
pub open spec fn manifest_model_of(m: Option<&ResourceManifest>) -> Option<ManifestModel> {
    match m {
        Option::None => Option::None,
        Option::Some(r) => Option::Some(r@),
    }
}

/// The font downloads a sync schedules: none without a manifest, none with
/// font sync disabled, otherwise exactly the stale font entries.
pub open spec fn planned_fonts(
    m: Option<ManifestModel>,
    download_fonts: bool,
    files: Seq<(Seq<char>, FileModel)>,
    base: Seq<char>,
    version: Seq<char>,
    root: Seq<char>,
) -> Seq<TaskModel> {
    match m {
        Option::None => Seq::empty(),
        Option::Some(mm) => if download_fonts {
            tasks_for(Category::Fonts, mm.fonts, files, base, version, root)
        } else {
            Seq::empty()
        },
    }
}

/// The image downloads a sync schedules: none without a manifest,
/// otherwise exactly the stale image entries.
pub open spec fn planned_images(
    m: Option<ManifestModel>,
    files: Seq<(Seq<char>, FileModel)>,
    base: Seq<char>,
    version: Seq<char>,
    root: Seq<char>,
) -> Seq<TaskModel> {
    match m {
        Option::None => Seq::empty(),
        Option::Some(mm) => tasks_for(Category::Images, mm.images, files, base, version, root),
    }
}

/// Plans one sync: with no manifest nothing is scheduled and nothing will
/// be written; with a manifest, each category's stale entries become its
/// download tasks.
pub fn plan_sync(
    cfg: &SyncConfig,
    manifest: Option<&ResourceManifest>,
    fonts_snap: &Snapshot,
    images_snap: &Snapshot,
) -> (plan: SyncPlan)
    ensures
        task_models(plan.font_tasks@) == planned_fonts(
            manifest_model_of(manifest),
            cfg.download_fonts,
            fonts_snap@,
            cfg.base_url@,
            cfg.version@,
            cfg.fonts_root@,
        ),
        task_models(plan.image_tasks@) == planned_images(
            manifest_model_of(manifest),
            images_snap@,
            cfg.base_url@,
            cfg.version@,
            cfg.images_root@,
        ),
{
    match manifest {
        Option::None => {
            let plan = SyncPlan { font_tasks: Vec::new(), image_tasks: Vec::new() };
            proof {
                assert(task_models(plan.font_tasks@) =~= Seq::<TaskModel>::empty());
                assert(task_models(plan.image_tasks@) =~= Seq::<TaskModel>::empty());
            }
            plan
        },
        Option::Some(m) => {
            let font_tasks = if cfg.download_fonts {
                resolve_stale(
                    Category::Fonts,
                    &m.fonts,
                    fonts_snap,
                    cfg.base_url.as_str(),
                    cfg.version.as_str(),
                    cfg.fonts_root.as_str(),
                )
            } else {
                let empty_tasks: Vec<DownloadTask> = Vec::new();
                proof {
                    assert(task_models(empty_tasks@) =~= Seq::<TaskModel>::empty());
                }
                empty_tasks
            };
            let image_tasks = resolve_stale(
                Category::Images,
                &m.images,
                images_snap,
                cfg.base_url.as_str(),
                cfg.version.as_str(),
                cfg.images_root.as_str(),
            );
            SyncPlan { font_tasks, image_tasks }
        },
    }
}

/// One category's local state after its whole download phase.
pub open spec fn category_final(
    entries: Seq<EntryModel>,
    files: Seq<(Seq<char>, FileModel)>,
    outs: Seq<OutcomeModel>,
) -> Seq<(Seq<char>, FileModel)> {
    apply_tasks(files, entry_paths(stale_of(entries, files)), outs)
}

/// The whole session's final state: each category's phase runs on its own
/// root with its own tasks and outcomes.
pub open spec fn session_final(
    m: ManifestModel,
    download_fonts: bool,
    fonts_files: Seq<(Seq<char>, FileModel)>,
    images_files: Seq<(Seq<char>, FileModel)>,
    font_outs: Seq<OutcomeModel>,
    image_outs: Seq<OutcomeModel>,
) -> (Seq<(Seq<char>, FileModel)>, Seq<(Seq<char>, FileModel)>) {
    (
        if download_fonts {
            category_final(m.fonts, fonts_files, font_outs)
        } else {
            fonts_files
        },
        category_final(m.images, images_files, image_outs),
    )
}

/// The scheduled tasks' paths are exactly the stale entries' paths.
pub proof fn lemma_task_paths(
    c: Category,
    entries: Seq<EntryModel>,
    files: Seq<(Seq<char>, FileModel)>,
    base: Seq<char>,
    version: Seq<char>,
    root: Seq<char>,
)
    ensures
        task_paths(tasks_for(c, entries, files, base, version, root)) == entry_paths(
            stale_of(entries, files),
        ),
{
    assert(task_paths(tasks_for(c, entries, files, base, version, root)) =~= entry_paths(
        stale_of(entries, files),
    ));
}

/// A path no task names keeps its state through the whole download phase:
/// current files are not rewritten, and files of other categories or
/// outside the manifest are never touched.
pub proof fn lemma_undispatched_untouched(
    files: Seq<(Seq<char>, FileModel)>,
    paths: Seq<Seq<char>>,
    outs: Seq<OutcomeModel>,
    p: Seq<char>,
)
    requires
        outs.len() == paths.len(),
        forall|j: int| 0 <= j < paths.len() ==> paths[j] != p,
    ensures
        lookup(apply_tasks(files, paths, outs), p) == lookup(files, p),
    decreases paths.len(),
{
    if paths.len() == 0 {
    } else {
        lemma_undispatched_untouched(files, paths.drop_last(), outs.drop_last(), p);
        let prev = apply_tasks(files, paths.drop_last(), outs.drop_last());
        match outs.last() {
            OutcomeModel::Success { content } => {
                lemma_store_lookup_other(prev, paths.last(), FileModel::Present { content }, p);
            },
            OutcomeModel::FailedNoWrite => {},
            OutcomeModel::FailedPartial { content } => {
                lemma_store_lookup_other(prev, paths.last(), FileModel::Present { content }, p);
            },
        }
    }
}

/// After the download phase, a task that succeeded left exactly its
/// content at its path, provided no two tasks share a path.
pub proof fn lemma_success_written(
    files: Seq<(Seq<char>, FileModel)>,
    paths: Seq<Seq<char>>,
    outs: Seq<OutcomeModel>,
    j: int,
)
    requires
        outs.len() == paths.len(),
        0 <= j < paths.len(),
        forall|a: int, b: int| 0 <= a < b < paths.len() ==> paths[a] != paths[b],
    ensures
        match outs[j] {
            OutcomeModel::Success { content } => lookup(apply_tasks(files, paths, outs), paths[j])
                == FileModel::Present { content },
            _ => true,
        },
    decreases paths.len(),
{
    let prev = apply_tasks(files, paths.drop_last(), outs.drop_last());
    if j == paths.len() - 1 {
        match outs[j] {
            OutcomeModel::Success { content } => {
                lemma_store_lookup_same(prev, paths.last(), FileModel::Present { content });
            },
            _ => {},
        }
    } else {
        lemma_success_written(files, paths.drop_last(), outs.drop_last(), j);
        assert(paths.drop_last()[j] == paths[j]);
        assert(outs.drop_last()[j] == outs[j]);
        match outs[j] {
            OutcomeModel::Success { content } => {
                assert(paths.last() != paths[j]);
                match outs.last() {
                    OutcomeModel::Success { content: c2 } => {
                        lemma_store_lookup_other(
                            prev,
                            paths.last(),
                            FileModel::Present { content: c2 },
                            paths[j],
                        );
                    },
                    OutcomeModel::FailedNoWrite => {},
                    OutcomeModel::FailedPartial { content: c2 } => {
                        lemma_store_lookup_other(
                            prev,
                            paths.last(),
                            FileModel::Present { content: c2 },
                            paths[j],
                        );
                    },
                }
            },
            _ => {},
        }
    }
}

/// With unique entry paths, the stale entries' paths are unique too.
pub proof fn lemma_stale_paths_unique(
    entries: Seq<EntryModel>,
    files: Seq<(Seq<char>, FileModel)>,
)
    requires
        paths_unique(entries),
    ensures
        forall|a: int, b: int|
            0 <= a < b < stale_of(entries, files).len() ==> entry_paths(stale_of(entries, files))[a]
                != entry_paths(stale_of(entries, files))[b],
    decreases entries.len(),
{
    if entries.len() == 0 {
    } else {
        assert(paths_unique(entries.drop_last()));
        lemma_stale_paths_unique(entries.drop_last(), files);
        crate::resolve::lemma_stale_membership(entries.drop_last(), files);
        let rest = stale_of(entries.drop_last(), files);
        let st = stale_of(entries, files);
        if entry_stale(files, entries.last()) {
            assert(st == rest.push(entries.last()));
            assert forall|a: int, b: int| 0 <= a < b < st.len() implies entry_paths(st)[a]
                != entry_paths(st)[b] by {
                if b < rest.len() {
                    assert(entry_paths(rest)[a] != entry_paths(rest)[b]);
                    assert(entry_paths(st)[a] == entry_paths(rest)[a]);
                    assert(entry_paths(st)[b] == entry_paths(rest)[b]);
                } else {
                    assert(st[b] == entries.last());
                    assert(st[a] == rest[a]);
                    assert(entries.drop_last().contains(rest[a]));
                    let w = choose|w: int|
                        0 <= w < entries.drop_last().len() && entries.drop_last()[w] == rest[a];
                    assert(entries[w] == rest[a]);
                    assert(entries[w].path != entries.last().path);
                    assert(entry_paths(st)[a] == rest[a].path);
                    assert(entry_paths(st)[b] == entries.last().path);
                }
            }
        } else {
            assert(st == rest);
            assert forall|a: int, b: int| 0 <= a < b < st.len() implies entry_paths(st)[a]
                != entry_paths(st)[b] by {
                assert(entry_paths(rest)[a] != entry_paths(rest)[b]);
            }
        }
    }
}

/// Whether an outcome is a success whose content has the expected
/// fingerprint.
pub open spec fn outcome_matches(out: OutcomeModel, hash: Seq<char>) -> bool {
    match out {
        OutcomeModel::Success { content } => hash == crate::hashing::hex_of(
            crate::hashing::sha256_of(content),
        ),
        _ => false,
    }
}

/// After a sync in which every dispatched download succeeded with content
/// matching its manifest fingerprint, every manifest entry of the category
/// is current: its local file's fingerprint equals the manifest's.
pub proof fn lemma_sync_establishes(
    entries: Seq<EntryModel>,
    files: Seq<(Seq<char>, FileModel)>,
    outs: Seq<OutcomeModel>,
)
    requires
        paths_unique(entries),
        outs.len() == stale_of(entries, files).len(),
        forall|j: int|
            0 <= j < outs.len() ==> outcome_matches(#[trigger] outs[j], stale_of(entries, files)[j].hash),
    ensures
        forall|k: int|
            0 <= k < entries.len() ==> current_at(
                category_final(entries, files, outs),
                (#[trigger] entries[k]).path,
                entries[k].hash,
            ),
{
    let st = stale_of(entries, files);
    let ps = entry_paths(st);
    let after = category_final(entries, files, outs);
    crate::resolve::lemma_stale_membership(entries, files);
    lemma_stale_paths_unique(entries, files);
    assert forall|k: int| 0 <= k < entries.len() implies current_at(
        after,
        (#[trigger] entries[k]).path,
        entries[k].hash,
    ) by {
        let e = entries[k];
        if entry_stale(files, e) {
            assert(st.contains(e));
            let j = choose|j: int| 0 <= j < st.len() && st[j] == e;
            assert(ps[j] == e.path);
            lemma_success_written(files, ps, outs, j);
            match outs[j] {
                OutcomeModel::Success { content } => {
                    assert(lookup(after, e.path) == FileModel::Present { content });
                    assert(e.hash == crate::hashing::hex_of(crate::hashing::sha256_of(content)));
                },
                _ => {
                    assert(outcome_matches(outs[j], st[j].hash));
                    assert(false);
                },
            }
        } else {
            assert forall|j: int| 0 <= j < ps.len() implies ps[j] != e.path by {
                assert(st.contains(st[j]));
                let w = choose|w: int| 0 <= w < entries.len() && entries[w] == st[j];
                if entries[w].path == e.path {
                    if w != k {
                        assert(false);
                    } else {
                        assert(entry_stale(files, st[j]));
                        assert(false);
                    }
                }
                assert(ps[j] == st[j].path);
            }
            lemma_undispatched_untouched(files, ps, outs, e.path);
        }
    }
}

/// No entry of a category with only current files is stale.
proof fn lemma_no_stale_empty(entries: Seq<EntryModel>, files: Seq<(Seq<char>, FileModel)>)
    requires
        forall|k: int| 0 <= k < entries.len() ==> !entry_stale(files, #[trigger] entries[k]),
    ensures
        stale_of(entries, files) == Seq::<EntryModel>::empty(),
    decreases entries.len(),
{
    if entries.len() == 0 {
        assert(stale_of(entries, files) =~= Seq::<EntryModel>::empty());
    } else {
        assert(forall|k: int|
            0 <= k < entries.len() - 1 ==> entries.drop_last()[k] == #[trigger] entries[k]);
        lemma_no_stale_empty(entries.drop_last(), files);
        assert(!entry_stale(files, entries.last()));
    }
}

/// Idempotence: a second sync against the unchanged manifest and the files
/// a fully successful first sync left behind schedules zero downloads.
pub proof fn lemma_second_sync_idle(
    entries: Seq<EntryModel>,
    files: Seq<(Seq<char>, FileModel)>,
    outs: Seq<OutcomeModel>,
)
    requires
        paths_unique(entries),
        outs.len() == stale_of(entries, files).len(),
        forall|j: int|
            0 <= j < outs.len() ==> outcome_matches(#[trigger] outs[j], stale_of(entries, files)[j].hash),
    ensures
        stale_of(entries, category_final(entries, files, outs)) == Seq::<EntryModel>::empty(),
{
    lemma_sync_establishes(entries, files, outs);
    lemma_no_stale_empty(entries, category_final(entries, files, outs));
}

/// Category isolation: one category's final state depends only on its own
/// entries, its own snapshot and its own outcomes — however the other
/// category's downloads went.
pub proof fn lemma_category_isolation(
    m: ManifestModel,
    download_fonts: bool,
    fonts_files: Seq<(Seq<char>, FileModel)>,
    images_files: Seq<(Seq<char>, FileModel)>,
    font_outs_1: Seq<OutcomeModel>,
    font_outs_2: Seq<OutcomeModel>,
    image_outs_1: Seq<OutcomeModel>,
    image_outs_2: Seq<OutcomeModel>,
)
    ensures
        session_final(m, download_fonts, fonts_files, images_files, font_outs_1, image_outs_1).1
            == session_final(
            m,
            download_fonts,
            fonts_files,
            images_files,
            font_outs_2,
            image_outs_1,
        ).1,
        session_final(m, download_fonts, fonts_files, images_files, font_outs_1, image_outs_1).0
            == session_final(
            m,
            download_fonts,
            fonts_files,
            images_files,
            font_outs_1,
            image_outs_2,
        ).0,
{
}

/// A manifest fetch failure causes zero downloads and leaves every local
/// file of both categories untouched.
pub proof fn lemma_fetch_failure_no_effect(
    download_fonts: bool,
    fonts_files: Seq<(Seq<char>, FileModel)>,
    images_files: Seq<(Seq<char>, FileModel)>,
    base: Seq<char>,
    version: Seq<char>,
    fonts_root: Seq<char>,
    images_root: Seq<char>,
)
    ensures
        planned_fonts(Option::None, download_fonts, fonts_files, base, version, fonts_root)
            == Seq::<TaskModel>::empty(),
        planned_images(Option::None, images_files, base, version, images_root) == Seq::<
            TaskModel,
        >::empty(),
        apply_tasks(fonts_files, Seq::empty(), Seq::empty()) == fonts_files,
        apply_tasks(images_files, Seq::empty(), Seq::empty()) == images_files,
{
}

} // verus!
