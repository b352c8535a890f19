//! Staleness resolution: diffing manifest entries against the observed
//! local state. Every entry whose local file is absent, unreadable or has a
//! different fingerprint becomes a download task; current entries are left
//! untouched. The check fails open: whatever cannot be verified is
//! re-downloaded.

use vstd::prelude::*;

use crate::local::{current_at, FileModel, Snapshot};
use crate::manifest::{
    category_name, category_name_str, entry_models, resource_url, resource_url_spec, Category,
    EntryModel, FileEntry,
};

verus! {

/// Mathematical model of one download task.
pub struct TaskModel {
    pub category: Category,
    pub path: Seq<char>,
    pub hash: Seq<char>,
    pub url: Seq<char>,
    pub local_path: Seq<char>,
}

/// One unit of download work: which category, which relative path, the
/// fingerprint the downloaded content is expected to have, the remote URL
/// to fetch, and the local destination path.
pub struct DownloadTask {
    pub category: Category,
    pub relative_path: String,
    pub expected_hash: String,
    pub remote_url: String,
    pub local_path: String,
}

impl View for DownloadTask {
    type V = TaskModel;

    open spec fn view(&self) -> TaskModel {
        TaskModel {
            category: self.category,
            path: self.relative_path@,
            hash: self.expected_hash@,
            url: self.remote_url@,
            local_path: self.local_path@,
        }
    }
}

/// The models of a sequence of tasks.
pub open spec fn task_models(s: Seq<DownloadTask>) -> Seq<TaskModel> {
    s.map_values(|t: DownloadTask| t@)
}

/// An entry is stale when its local file is not current: absent, unreadable
/// or fingerprint mismatch.
pub open spec fn entry_stale(files: Seq<(Seq<char>, FileModel)>, e: EntryModel) -> bool {
    !current_at(files, e.path, e.hash)
}

/// The stale entries, in manifest order.
pub open spec fn stale_of(
    entries: Seq<EntryModel>,
    files: Seq<(Seq<char>, FileModel)>,
) -> Seq<EntryModel>
    decreases entries.len(),
{
    if entries.len() == 0 {
        Seq::empty()
    } else {
        let rest = stale_of(entries.drop_last(), files);
        if entry_stale(files, entries.last()) {
            rest.push(entries.last())
        } else {
            rest
        }
    }
}

/// The task a stale entry becomes: remote URL under the category's name,
/// local destination under the category's root.
pub open spec fn task_model_of(
    c: Category,
    e: EntryModel,
    base: Seq<char>,
    version: Seq<char>,
    root: Seq<char>,
) -> TaskModel {
    TaskModel {
        category: c,
        path: e.path,
        hash: e.hash,
        url: resource_url_spec(base, version, category_name(c) + "/"@ + e.path),
        local_path: root + "/"@ + e.path,
    }
}

/// The tasks a category's stale entries become, in manifest order.
pub open spec fn tasks_for(
    c: Category,
    entries: Seq<EntryModel>,
    files: Seq<(Seq<char>, FileModel)>,
    base: Seq<char>,
    version: Seq<char>,
    root: Seq<char>,
) -> Seq<TaskModel> {
    stale_of(entries, files).map_values(|e: EntryModel| task_model_of(c, e, base, version, root))
}

/// Builds the download task for one entry.
pub fn make_task(
    c: Category,
    e: &FileEntry,
    base_url: &str,
    version: &str,
    root: &str,
) -> (t: DownloadTask)
    ensures
        t@ == task_model_of(c, e@, base_url@, version@, root@),
{
    let mut name = String::from_str(category_name_str(c));
    name.append("/");
    name.append(e.relative_path.as_str());
    let url = resource_url(base_url, version, name.as_str());
    let mut lp = String::from_str(root);
    lp.append("/");
    lp.append(e.relative_path.as_str());
    DownloadTask {
        category: c,
        relative_path: e.relative_path.clone(),
        expected_hash: e.content_hash.clone(),
        remote_url: url,
        local_path: lp,
    }
}

/// Partitions a category's entries against the observed local state:
/// exactly the stale entries become download tasks, in manifest order;
/// current entries cause no task, no write, no further read.
pub fn resolve_stale(
    c: Category,
    entries: &Vec<FileEntry>,
    snap: &Snapshot,
    base_url: &str,
    version: &str,
    root: &str,
) -> (tasks: Vec<DownloadTask>)
    ensures
        task_models(tasks@) == tasks_for(
            c,
            entry_models(entries@),
            snap@,
            base_url@,
            version@,
            root@,
        ),
{
    let ghost ems = entry_models(entries@);
    let mut tasks: Vec<DownloadTask> = Vec::new();
    let n = entries.len();
    let mut i: usize = 0;
    proof {
        assert(ems.take(0) =~= Seq::<EntryModel>::empty());
        assert(task_models(tasks@) =~= stale_of(ems.take(0), snap@).map_values(
            |e: EntryModel| task_model_of(c, e, base_url@, version@, root@),
        ));
    }
    while i < n
        invariant
            ems == entry_models(entries@),
            n == entries@.len(),
            i <= n,
            task_models(tasks@) == stale_of(ems.take(i as int), snap@).map_values(
                |e: EntryModel| task_model_of(c, e, base_url@, version@, root@),
            ),
        decreases n - i,
    {
        proof {
            assert(ems[i as int] == entries@[i as int]@);
            assert(ems.take(i as int + 1).drop_last() =~= ems.take(i as int));
            assert(ems.take(i as int + 1).last() == ems[i as int]);
        }
        let ghost tasks_before = tasks@;
        let e = &entries[i];
        if !snap.is_current(&e.relative_path, &e.content_hash) {
            let t = make_task(c, e, base_url, version, root);
            tasks.push(t);
            proof {
                assert(task_models(tasks@) =~= task_models(tasks_before).push(
                    task_model_of(c, e@, base_url@, version@, root@),
                ));
            }
        }
        proof {
            assert(task_models(tasks@) =~= stale_of(ems.take(i as int + 1), snap@).map_values(
                |em: EntryModel| task_model_of(c, em, base_url@, version@, root@),
            ));
        }
        i = i + 1;
    }
    proof {
        assert(ems.take(n as int) =~= ems);
    }
    tasks
}

/// How many of a category's entries are stale.
pub open spec fn stale_count(
    entries: Seq<EntryModel>,
    files: Seq<(Seq<char>, FileModel)>,
) -> nat
    decreases entries.len(),
{
    if entries.len() == 0 {
        0
    } else {
        stale_count(entries.drop_last(), files) + if entry_stale(files, entries.last()) {
            1nat
        } else {
            0nat
        }
    }
}

/// Of N entries with exactly M stale, exactly M tasks arise and N - M
/// entries are left without one.
pub proof fn lemma_dispatch_count(entries: Seq<EntryModel>, files: Seq<(Seq<char>, FileModel)>)
    ensures
        stale_of(entries, files).len() == stale_count(entries, files),
        stale_count(entries, files) <= entries.len(),
    decreases entries.len(),
{
    if entries.len() == 0 {
    } else {
        lemma_dispatch_count(entries.drop_last(), files);
    }
}

/// Every listed stale entry is one of the given entries and is stale; no
/// current entry is listed.
pub proof fn lemma_stale_membership(entries: Seq<EntryModel>, files: Seq<(Seq<char>, FileModel)>)
    ensures
        forall|j: int|
            0 <= j < stale_of(entries, files).len() ==> entries.contains(
                #[trigger] stale_of(entries, files)[j],
            ) && entry_stale(files, stale_of(entries, files)[j]),
        forall|k: int|
            0 <= k < entries.len() && entry_stale(files, #[trigger] entries[k]) ==> stale_of(
                entries,
                files,
            ).contains(entries[k]),
    decreases entries.len(),
{
    if entries.len() == 0 {
    } else {
        lemma_stale_membership(entries.drop_last(), files);
        assert(forall|k: int|
            0 <= k < entries.len() - 1 ==> entries.drop_last()[k] == #[trigger] entries[k]);
        assert forall|j: int| 0 <= j < stale_of(entries, files).len() implies entries.contains(
            #[trigger] stale_of(entries, files)[j],
        ) && entry_stale(files, stale_of(entries, files)[j]) by {
            let rest = stale_of(entries.drop_last(), files);
            if j < rest.len() {
                assert(entries.drop_last().contains(rest[j]));
                let w = choose|w: int|
                    0 <= w < entries.drop_last().len() && entries.drop_last()[w] == rest[j];
                assert(entries[w] == rest[j]);
            } else {
                assert(stale_of(entries, files)[j] == entries.last());
            }
        }
        assert forall|k: int|
            0 <= k < entries.len() && entry_stale(files, #[trigger] entries[k]) implies stale_of(
            entries,
            files,
        ).contains(entries[k]) by {
            let rest = stale_of(entries.drop_last(), files);
            if k < entries.len() - 1 {
                assert(entries.drop_last()[k] == entries[k]);
                assert(rest.contains(entries[k]));
                let w = choose|w: int| 0 <= w < rest.len() && rest[w] == entries[k];
                if entry_stale(files, entries.last()) {
                    assert(rest.push(entries.last())[w] == entries[k]);
                } else {
                    assert(stale_of(entries, files)[w] == entries[k]);
                }
            } else {
                assert(stale_of(entries, files).last() == entries[k]);
            }
        }
    }
}

} // verus!
