//! The local side of a sync: what is on disk at each relative path of a
//! category root, and how that state changes when bytes are written. A file
//! is current exactly when it is present, readable, and its freshly computed
//! digest equals the expected fingerprint; anything else is stale.

use vstd::prelude::*;

use crate::hashing::{file_fingerprint_matches, hex_of, sha256_of};

verus! {

/// Mathematical model of one path's local state: absent, unreadable, or
/// present with its full content.
pub enum FileModel {
    Missing,
    Unreadable,
    Present { content: Seq<u8> },
}

/// One path's local state, as the surrounding I/O layer observed it: absent,
/// present but unreadable, or present with its content.
pub enum LocalFile {
    Missing,
    Unreadable,
    Present(Vec<u8>),
}

impl View for LocalFile {
    type V = FileModel;

    open spec fn view(&self) -> FileModel {
        match self {
            LocalFile::Missing => FileModel::Missing,
            LocalFile::Unreadable => FileModel::Unreadable,
            LocalFile::Present(content) => FileModel::Present { content: content@ },
        }
    }
}

/// One recorded path of a category root with its local state.
pub struct SnapshotEntry {
    pub path: String,
    pub state: LocalFile,
}

impl View for SnapshotEntry {
    type V = (Seq<char>, FileModel);

    open spec fn view(&self) -> (Seq<char>, FileModel) {
        (self.path@, self.state@)
    }
}

/// The observed local state of one category root, keyed by relative path.
/// Paths not recorded are absent.
pub struct Snapshot {
    pub files: Vec<SnapshotEntry>,
}

impl View for Snapshot {
    type V = Seq<(Seq<char>, FileModel)>;

    open spec fn view(&self) -> Seq<(Seq<char>, FileModel)> {
        self.files@.map_values(|e: SnapshotEntry| e@)
    }
}

/// The state recorded for `path`: the first record under that path, or
/// absent where none is.
pub open spec fn lookup(files: Seq<(Seq<char>, FileModel)>, path: Seq<char>) -> FileModel
    decreases files.len(),
{
    if files.len() == 0 {
        FileModel::Missing
    } else if files[0].0 == path {
        files[0].1
    } else {
        lookup(files.drop_first(), path)
    }
}

/// The snapshot after `path`'s state becomes `st`: the first record under
/// that path is replaced, or a record is added where none was.
pub open spec fn store(
    files: Seq<(Seq<char>, FileModel)>,
    path: Seq<char>,
    st: FileModel,
) -> Seq<(Seq<char>, FileModel)>
    decreases files.len(),
{
    if files.len() == 0 {
        seq![(path, st)]
    } else if files[0].0 == path {
        seq![(path, st)] + files.drop_first()
    } else {
        seq![files[0]] + store(files.drop_first(), path, st)
    }
}

/// A file's state is current exactly when it is present and its content's
/// fingerprint equals the expected one.
pub open spec fn file_current(local: FileModel, expected: Seq<char>) -> bool {
    match local {
        FileModel::Present { content } => expected == hex_of(sha256_of(content)),
        _ => false,
    }
}

/// Whether the state recorded for `path` is current against `expected`.
pub open spec fn current_at(
    files: Seq<(Seq<char>, FileModel)>,
    path: Seq<char>,
    expected: Seq<char>,
) -> bool {
    file_current(lookup(files, path), expected)
}

/// After storing at `path`, that path holds the stored state.
pub proof fn lemma_store_lookup_same(
    files: Seq<(Seq<char>, FileModel)>,
    path: Seq<char>,
    st: FileModel,
)
    ensures
        lookup(store(files, path, st), path) == st,
    decreases files.len(),
{
    if files.len() == 0 {
    } else if files[0].0 == path {
    } else {
        lemma_store_lookup_same(files.drop_first(), path, st);
        assert((seq![files[0]] + store(files.drop_first(), path, st)).drop_first() =~= store(
            files.drop_first(),
            path,
            st,
        ));
    }
}

/// Storing at one path leaves every other path's state unchanged.
pub proof fn lemma_store_lookup_other(
    files: Seq<(Seq<char>, FileModel)>,
    path: Seq<char>,
    st: FileModel,
    other: Seq<char>,
)
    requires
        other != path,
    ensures
        lookup(store(files, path, st), other) == lookup(files, other),
    decreases files.len(),
{
    if files.len() == 0 {
        let s0 = seq![(path, st)];
        assert(store(files, path, st) == s0);
        assert(s0[0].0 == path);
        assert(s0.drop_first() =~= Seq::<(Seq<char>, FileModel)>::empty());
        assert(lookup(s0.drop_first(), other) == FileModel::Missing);
        assert(lookup(s0, other) == lookup(s0.drop_first(), other));
    } else if files[0].0 == path {
        let s = seq![(path, st)] + files.drop_first();
        assert(store(files, path, st) == s);
        assert(s[0].0 == path);
        assert(s.drop_first() =~= files.drop_first());
        assert(lookup(s, other) == lookup(files.drop_first(), other));
        assert(lookup(files, other) == lookup(files.drop_first(), other));
    } else {
        lemma_store_lookup_other(files.drop_first(), path, st, other);
        let s = seq![files[0]] + store(files.drop_first(), path, st);
        assert(store(files, path, st) == s);
        assert(s[0] == files[0]);
        assert(s.drop_first() =~= store(files.drop_first(), path, st));
        if files[0].0 == other {
            assert(lookup(s, other) == files[0].1);
            assert(lookup(files, other) == files[0].1);
        } else {
            assert(lookup(s, other) == lookup(store(files.drop_first(), path, st), other));
            assert(lookup(files, other) == lookup(files.drop_first(), other));
        }
    }
}

/// The recorded state for a path with a first match at `i`.
pub proof fn lemma_lookup_at(files: Seq<(Seq<char>, FileModel)>, path: Seq<char>, i: int)
    requires
        0 <= i < files.len(),
        files[i].0 == path,
        forall|k: int| 0 <= k < i ==> files[k].0 != path,
    ensures
        lookup(files, path) == files[i].1,
    decreases i,
{
    if i == 0 {
    } else {
        lemma_lookup_at(files.drop_first(), path, i - 1);
    }
}

/// A path no record holds is absent.
pub proof fn lemma_lookup_absent(files: Seq<(Seq<char>, FileModel)>, path: Seq<char>)
    requires
        forall|k: int| 0 <= k < files.len() ==> files[k].0 != path,
    ensures
        lookup(files, path) == FileModel::Missing,
    decreases files.len(),
{
    if files.len() == 0 {
    } else {
        lemma_lookup_absent(files.drop_first(), path);
    }
}

/// Whether the observed file state is current against the expected
/// fingerprint: present, readable, and its digest's hexadecimal rendering
/// equal to `expected`. Staleness fails open: absent and unreadable states
/// are never current.
pub fn file_is_current(local: &LocalFile, expected: &String) -> (r: bool)
    ensures
        r == file_current(local@, expected@),
{
    match local {
        LocalFile::Present(content) => file_fingerprint_matches(content, expected),
        LocalFile::Missing => false,
        LocalFile::Unreadable => false,
    }
}

impl Snapshot {
    /// A snapshot with no recorded paths.
    pub fn new() -> (r: Snapshot)
        ensures
            r@ == Seq::<(Seq<char>, FileModel)>::empty(),
    {
        let r = Snapshot { files: Vec::new() };
        proof {
            assert(r@ =~= Seq::<(Seq<char>, FileModel)>::empty());
        }
        r
    }

    /// Records `path` with the given observed state, replacing the first
    /// record under that path or adding one where none was.
    pub fn record(&mut self, path: &String, state: LocalFile)
        ensures
            final(self)@ == store(old(self)@, path@, state@),
    {
        let ghost st = state@;
        let ghost orig = self.files@;
        let n = self.files.len();
        let mut i: usize = 0;
        while i < n
            invariant
                st == state@,
                orig == old(self).files@,
                self.files@ == orig,
                n == self.files@.len(),
                i <= n,
                forall|k: int| 0 <= k < i ==> self@[k].0 != path@,
            decreases n - i,
        {
            proof {
                assert(self@[i as int] == self.files@[i as int]@);
            }
            if self.files[i].path == *path {
                let ghost before = self@;
                let p = self.files[i].path.clone();
                let new_entry = SnapshotEntry { path: p, state };
                self.files[i] = new_entry;
                proof {
                    assert(self@[i as int] == (path@, st));
                    assert(forall|k: int| 0 <= k < before.len() && k != i ==> self@[k] == before[k]);
                    assert(self@ =~= before.take(i as int) + seq![(path@, st)] + before.skip(
                        i as int + 1,
                    ));
                    lemma_store_at(before, path@, st, i as int);
                }
                return ;
            }
            i = i + 1;
        }
        let ghost before = self@;
        self.files.push(SnapshotEntry { path: path.clone(), state });
        proof {
            assert(self@ =~= before.push((path@, st)));
            lemma_store_append(before, path@, st);
        }
    }

    /// Whether the state recorded for `path` is current against `expected`.
    pub fn is_current(&self, path: &String, expected: &String) -> (r: bool)
        ensures
            r == current_at(self@, path@, expected@),
    {
        let n = self.files.len();
        let mut i: usize = 0;
        while i < n
            invariant
                n == self.files@.len(),
                i <= n,
                forall|k: int| 0 <= k < i ==> self@[k].0 != path@,
            decreases n - i,
        {
            proof {
                assert(self@[i as int] == self.files@[i as int]@);
            }
            if self.files[i].path == *path {
                proof {
                    lemma_lookup_at(self@, path@, i as int);
                }
                return file_is_current(&self.files[i].state, expected);
            }
            i = i + 1;
        }
        proof {
            lemma_lookup_absent(self@, path@);
        }
        false
    }
}

/// Replacing the first record under a path in place is `store`.
proof fn lemma_store_at(
    files: Seq<(Seq<char>, FileModel)>,
    path: Seq<char>,
    st: FileModel,
    i: int,
)
    requires
        0 <= i < files.len(),
        files[i].0 == path,
        forall|k: int| 0 <= k < i ==> files[k].0 != path,
    ensures
        store(files, path, st) == files.take(i) + seq![(path, st)] + files.skip(i + 1),
    decreases i,
{
    if i == 0 {
        assert(store(files, path, st) =~= files.take(0) + seq![(path, st)] + files.skip(1));
    } else {
        lemma_store_at(files.drop_first(), path, st, i - 1);
        assert(store(files, path, st) =~= files.take(i) + seq![(path, st)] + files.skip(i + 1)) by {
            assert(files.drop_first().take(i - 1) =~= files.take(i).drop_first());
            assert(files.drop_first().skip(i) =~= files.skip(i + 1));
            assert(store(files, path, st) == seq![files[0]] + store(
                files.drop_first(),
                path,
                st,
            ));
        }
    }
}

/// Appending a record for an unrecorded path is `store`.
proof fn lemma_store_append(files: Seq<(Seq<char>, FileModel)>, path: Seq<char>, st: FileModel)
    requires
        forall|k: int| 0 <= k < files.len() ==> files[k].0 != path,
    ensures
        store(files, path, st) == files.push((path, st)),
    decreases files.len(),
{
    if files.len() == 0 {
        assert(store(files, path, st) =~= files.push((path, st)));
    } else {
        lemma_store_append(files.drop_first(), path, st);
        assert(store(files, path, st) =~= files.push((path, st))) by {
            assert(store(files, path, st) == seq![files[0]] + store(
                files.drop_first(),
                path,
                st,
            ));
            assert(files.drop_first().push((path, st)) =~= files.push((path, st)).drop_first());
        }
    }
}

} // verus!
