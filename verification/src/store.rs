//! The client state and its reducer: the single source of UI truth, mutated
//! only by applying an action, which yields a fresh state snapshot.  Actions
//! that change the file list also rewrite the persisted value through the
//! [`StorageService`] handed in by the caller.

use vstd::prelude::*;
use crate::codec::spec_encode;
use crate::models::{FileV, StoredFile, view_files};
use crate::storage::{StorageService, lemma_save_then_load, load_spec};

verus! {

/// Mathematical value of the client state.
#[verifier::ext_equal]
pub struct StoreV {
    pub files: Seq<FileV>,
    pub loading: bool,
    pub error: Option<Seq<char>>,
    pub downloading: Seq<Seq<char>>,
    pub validating: bool,
}

/// The client state: the file list newest first, the upload loading flag,
/// the optional error message, the identifiers of files whose download is
/// in flight, and the startup validation flag.
#[derive(Clone, Debug, PartialEq)]
pub struct FilesStore {
    pub files: Vec<StoredFile>,
    pub loading: bool,
    pub error: Option<String>,
    pub downloading_files: Vec<String>,
    pub validating: bool,
}

/// The identifiers of a `Vec<String>` as a sequence of character sequences.
pub open spec fn view_ids(s: Seq<String>) -> Seq<Seq<char>> {
    s.map_values(|x: String| x@)
}

impl View for FilesStore {
    type V = StoreV;

    open spec fn view(&self) -> StoreV {
        StoreV {
            files: view_files(self.files@),
            loading: self.loading,
            error: match self.error {
                None => None,
                Some(ref m) => Some(m@),
            },
            downloading: view_ids(self.downloading_files@),
            validating: self.validating,
        }
    }
}

/// Mathematical value of an action.
pub enum ActionV {
    AddFile(FileV),
    RemoveFile(Seq<char>),
    ClearAll,
    SetLoading(bool),
    SetError(Option<Seq<char>>),
    StartDownload(Seq<char>),
    EndDownload(Seq<char>),
    SetValidatedFiles(Seq<FileV>),
    SetValidating(bool),
}

/// One state transition.  No action fails: an identifier that is absent
/// where one is expected makes the action a no-op.
pub enum FilesStoreAction {
    /// Prepend the record and persist the new list.
    AddFile(StoredFile),
    /// Drop every record with this identifier and persist the new list.
    RemoveFile(String),
    /// Empty the list and erase the persisted value.
    ClearAll,
    /// Set the upload loading flag.
    SetLoading(bool),
    /// Set or clear the error message.
    SetError(Option<String>),
    /// Note this identifier's download as in flight; idempotent.
    StartDownload(String),
    /// Note this identifier's download as finished.
    EndDownload(String),
    /// Replace the list with the validated records and persist them.
    SetValidatedFiles(Vec<StoredFile>),
    /// Set the startup validation flag.
    SetValidating(bool),
}

impl View for FilesStoreAction {
    type V = ActionV;

    open spec fn view(&self) -> ActionV {
        match self {
            FilesStoreAction::AddFile(f) => ActionV::AddFile(f@),
            FilesStoreAction::RemoveFile(id) => ActionV::RemoveFile(id@),
            FilesStoreAction::ClearAll => ActionV::ClearAll,
            FilesStoreAction::SetLoading(b) => ActionV::SetLoading(*b),
            FilesStoreAction::SetError(e) => ActionV::SetError(
                match e {
                    None => None,
                    Some(m) => Some(m@),
                },
            ),
            FilesStoreAction::StartDownload(id) => ActionV::StartDownload(id@),
            FilesStoreAction::EndDownload(id) => ActionV::EndDownload(id@),
            FilesStoreAction::SetValidatedFiles(fs) => ActionV::SetValidatedFiles(
                view_files(fs@),
            ),
            FilesStoreAction::SetValidating(b) => ActionV::SetValidating(*b),
        }
    }
}

/// Keeping a record means its identifier differs from the one removed.
pub open spec fn keeps_record(id: Seq<char>) -> spec_fn(FileV) -> bool {
    |g: FileV| g.file_id != id
}

/// Keeping an identifier means it differs from the one ended.
pub open spec fn keeps_id(id: Seq<char>) -> spec_fn(Seq<char>) -> bool {
    |x: Seq<char>| x != id
}

/// What each action does: the next state, and the persisted value after the
/// action (unchanged unless the action changes the file list).
pub open spec fn spec_reduce(s: StoreV, st: Option<Seq<char>>, a: ActionV) -> (StoreV, Option<
    Seq<char>,
>) {
    match a {
        ActionV::AddFile(f) => {
            let files = seq![f] + s.files;
            (StoreV { files, ..s }, Some(spec_encode(files)))
        },
        ActionV::RemoveFile(id) => {
            let files = s.files.filter(keeps_record(id));
            (StoreV { files, ..s }, Some(spec_encode(files)))
        },
        ActionV::ClearAll => (StoreV { files: Seq::empty(), ..s }, None),
        ActionV::SetLoading(b) => (StoreV { loading: b, ..s }, st),
        ActionV::SetError(e) => (StoreV { error: e, ..s }, st),
        ActionV::StartDownload(id) => if s.downloading.contains(id) {
            (s, st)
        } else {
            (StoreV { downloading: s.downloading.push(id), ..s }, st)
        },
        ActionV::EndDownload(id) => (
            StoreV { downloading: s.downloading.filter(keeps_id(id)), ..s },
            st,
        ),
        ActionV::SetValidatedFiles(fs) => (StoreV { files: fs, ..s }, Some(spec_encode(fs))),
        ActionV::SetValidating(b) => (StoreV { validating: b, ..s }, st),
    }
}

/// The records of `files` whose identifier differs from `id`, in order.
#[verifier::loop_isolation(false)]
fn retain_other_ids(files: &Vec<StoredFile>, id: &String) -> (r: Vec<StoredFile>)
    ensures
        view_files(r@) == view_files(files@).filter(keeps_record(id@)),
{
    let ghost pred = keeps_record(id@);
    let mut kept: Vec<StoredFile> = Vec::new();
    proof {
        assert(view_files(kept@) =~= Seq::<FileV>::empty());
        assert(view_files(files@).take(0) =~= Seq::<FileV>::empty());
        assert(Seq::<FileV>::empty().filter(pred) =~= Seq::<FileV>::empty()) by {
            reveal(Seq::filter);
        }
    }
    let mut i: usize = 0;
    while i < files.len()
        invariant
            i <= files@.len(),
            view_files(kept@) == view_files(files@).take(i as int).filter(pred),
        decreases files@.len() - i,
    {
        let ghost seen = view_files(files@).take(i as int);
        let ghost x = files@[i as int]@;
        if files[i].file_id != *id {
            kept.push(files[i].duplicate());
            proof {
                assert(view_files(kept@) =~= seen.filter(pred).push(x));
            }
        }
        proof {
            seen.lemma_filter_push(x, pred);
            assert(view_files(files@).take(i + 1) =~= seen.push(x));
            assert(view_files(files@).take(i + 1).filter(pred) == view_files(kept@));
        }
        i = i + 1;
    }
    proof {
        assert(view_files(files@).take(files@.len() as int) =~= view_files(files@));
    }
    kept
}

/// The identifiers of `ids` that differ from `id`, in order.
#[verifier::loop_isolation(false)]
fn retain_other_strings(ids: &Vec<String>, id: &String) -> (r: Vec<String>)
    ensures
        view_ids(r@) == view_ids(ids@).filter(keeps_id(id@)),
{
    let ghost pred = keeps_id(id@);
    let mut kept: Vec<String> = Vec::new();
    proof {
        assert(view_ids(kept@) =~= Seq::<Seq<char>>::empty());
        assert(view_ids(ids@).take(0) =~= Seq::<Seq<char>>::empty());
        assert(Seq::<Seq<char>>::empty().filter(pred) =~= Seq::<Seq<char>>::empty()) by {
            reveal(Seq::filter);
        }
    }
    let mut i: usize = 0;
    while i < ids.len()
        invariant
            i <= ids@.len(),
            view_ids(kept@) == view_ids(ids@).take(i as int).filter(pred),
        decreases ids@.len() - i,
    {
        let ghost seen = view_ids(ids@).take(i as int);
        let ghost x = ids@[i as int]@;
        if ids[i] != *id {
            kept.push(ids[i].clone());
            proof {
                assert(view_ids(kept@) =~= seen.filter(pred).push(x));
            }
        }
        proof {
            seen.lemma_filter_push(x, pred);
            assert(view_ids(ids@).take(i + 1) =~= seen.push(x));
            assert(view_ids(ids@).take(i + 1).filter(pred) == view_ids(kept@));
        }
        i = i + 1;
    }
    proof {
        assert(view_ids(ids@).take(ids@.len() as int) =~= view_ids(ids@));
    }
    kept
}

/// Whether some identifier of `ids` equals `id`.
fn contains_id(ids: &Vec<String>, id: &String) -> (r: bool)
    ensures
        r == view_ids(ids@).contains(id@),
{
    let mut i: usize = 0;
    while i < ids.len()
        invariant
            i <= ids@.len(),
            forall|k: int| 0 <= k < i ==> ids@[k]@ != id@,
        decreases ids@.len() - i,
    {
        if ids[i] == *id {
            proof {
                assert(view_ids(ids@)[i as int] == id@);
            }
            return true;
        }
        i = i + 1;
    }
    proof {
        assert forall|k: int| 0 <= k < view_ids(ids@).len() implies view_ids(ids@)[k] != id@ by {
            assert(ids@[k]@ != id@);
        }
    }
    false
}

impl FilesStore {
    /// Applies one action, returning the next state snapshot; the persisted
    /// value changes exactly when the action changes the file list.
    pub fn reduce(self, action: FilesStoreAction, storage: &mut StorageService) -> (r: FilesStore)
        ensures
            r@ == spec_reduce(self@, old(storage)@, action@).0,
            final(storage)@ == spec_reduce(self@, old(storage)@, action@).1,
    {
        let mut r = self;
        match action {
            FilesStoreAction::AddFile(f) => {
                let ghost fv = f@;
                let ghost before = view_files(r.files@);
                r.files.insert(0, f);
                proof {
                    assert(view_files(r.files@) =~= seq![fv] + before);
                }
                storage.save_files(&r.files);
            },
            FilesStoreAction::RemoveFile(id) => {
                r.files = retain_other_ids(&r.files, &id);
                storage.save_files(&r.files);
            },
            FilesStoreAction::ClearAll => {
                r.files = Vec::new();
                proof {
                    assert(view_files(r.files@) =~= Seq::<FileV>::empty());
                }
                storage.clear_files();
            },
            FilesStoreAction::SetLoading(b) => {
                r.loading = b;
            },
            FilesStoreAction::SetError(e) => {
                r.error = e;
            },
            FilesStoreAction::StartDownload(id) => {
                if !contains_id(&r.downloading_files, &id) {
                    let ghost before = view_ids(r.downloading_files@);
                    let ghost idv = id@;
                    r.downloading_files.push(id);
                    proof {
                        assert(view_ids(r.downloading_files@) =~= before.push(idv));
                    }
                }
            },
            FilesStoreAction::EndDownload(id) => {
                r.downloading_files = retain_other_strings(&r.downloading_files, &id);
            },
            FilesStoreAction::SetValidatedFiles(list) => {
                storage.save_files(&list);
                r.files = list;
            },
            FilesStoreAction::SetValidating(b) => {
                r.validating = b;
            },
        }
        r
    }

    /// The state at application start: the persisted list, nothing loading,
    /// no error, no download in flight, validation pending.
    pub fn load(storage: &StorageService) -> (r: FilesStore)
        ensures
            r@ == (StoreV {
                files: load_spec(storage@),
                loading: false,
                error: None,
                downloading: Seq::empty(),
                validating: true,
            }),
    {
        let files = storage.load_files();
        let r = FilesStore {
            files,
            loading: false,
            error: None,
            downloading_files: Vec::new(),
            validating: true,
        };
        proof {
            assert(view_ids(r.downloading_files@) =~= Seq::<Seq<char>>::empty());
        }
        r
    }
}

impl Default for FilesStore {
    /// The all-empty state.
    fn default() -> (r: FilesStore)
        ensures
            r@ == (StoreV {
                files: Seq::empty(),
                loading: false,
                error: None,
                downloading: Seq::empty(),
                validating: false,
            }),
    {
        let r = FilesStore {
            files: Vec::new(),
            loading: false,
            error: None,
            downloading_files: Vec::new(),
            validating: false,
        };
        proof {
            assert(view_files(r.files@) =~= Seq::<FileV>::empty());
            assert(view_ids(r.downloading_files@) =~= Seq::<Seq<char>>::empty());
        }
        r
    }
}

// ---------------------------------------------------------------------------
// Laws of the reducer.
// ---------------------------------------------------------------------------
/// Matching an identifier exactly.
pub open spec fn matches_id(id: Seq<char>) -> spec_fn(Seq<char>) -> bool {
    |x: Seq<char>| x == id
}

/// A state is well formed when no identifier stands twice among the
/// in-flight downloads.
pub open spec fn wf(s: StoreV) -> bool {
    s.downloading.no_duplicates()
}

/// An element of a filtered sequence is an element of the sequence.
proof fn lemma_filter_member<A>(s: Seq<A>, pred: spec_fn(A) -> bool, x: A)
    requires
        s.filter(pred).contains(x),
    ensures
        s.contains(x),
    decreases s.len(),
{
    reveal(Seq::filter);
    if s.len() > 0 {
        let dl = s.drop_last();
        let fs = s.filter(pred);
        if pred(s.last()) && x == s.last() {
            assert(s[s.len() - 1] == x);
        } else {
            if pred(s.last()) {
                assert(fs == dl.filter(pred).push(s.last()));
                let i = choose|i: int| 0 <= i < fs.len() && fs[i] == x;
                assert(dl.filter(pred)[i] == x);
                assert(dl.filter(pred).contains(x));
            } else {
                assert(fs == dl.filter(pred));
            }
            lemma_filter_member(dl, pred, x);
            let j = choose|j: int| 0 <= j < dl.len() && dl[j] == x;
            assert(s[j] == x);
        }
    }
}

/// Filtering keeps a sequence free of duplicates.
proof fn lemma_filter_no_duplicates<A>(s: Seq<A>, pred: spec_fn(A) -> bool)
    requires
        s.no_duplicates(),
    ensures
        s.filter(pred).no_duplicates(),
    decreases s.len(),
{
    reveal(Seq::filter);
    if s.len() > 0 {
        let dl = s.drop_last();
        assert(dl.no_duplicates());
        lemma_filter_no_duplicates(dl, pred);
        if pred(s.last()) {
            let f = dl.filter(pred);
            assert(!f.contains(s.last())) by {
                if f.contains(s.last()) {
                    lemma_filter_member(dl, pred, s.last());
                    let j = choose|j: int| 0 <= j < dl.len() && dl[j] == s.last();
                    assert(s[j] == s[s.len() - 1]);
                }
            }
            assert forall|i: int, j: int|
                0 <= i < f.push(s.last()).len() && 0 <= j < f.push(s.last()).len() && i
                    != j implies f.push(s.last())[i] != f.push(s.last())[j] by {
                if i < f.len() && j < f.len() {
                    assert(f[i] != f[j]);
                } else if j == f.len() && i < f.len() {
                    assert(f.contains(f[i]));
                } else if i == f.len() && j < f.len() {
                    assert(f.contains(f[j]));
                }
            }
        }
    }
}

/// A filter that every element passes changes nothing.
proof fn lemma_filter_keeps_all<A>(s: Seq<A>, pred: spec_fn(A) -> bool)
    requires
        forall|i: int| 0 <= i < s.len() ==> #[trigger] pred(s[i]),
    ensures
        s.filter(pred) == s,
    decreases s.len(),
{
    reveal(Seq::filter);
    if s.len() > 0 {
        let dl = s.drop_last();
        assert(forall|i: int| 0 <= i < dl.len() ==> #[trigger] pred(dl[i])) by {
            assert(forall|i: int| 0 <= i < dl.len() ==> dl[i] == s[i]);
        }
        lemma_filter_keeps_all(dl, pred);
        assert(pred(s[s.len() - 1]));
        assert(s.filter(pred) == dl.push(s.last()));
        assert(dl.push(s.last()) =~= s);
    }
}

/// An identifier that stands in a duplicate-free sequence passes the
/// matching filter exactly once.
proof fn lemma_count_of_present_id(s: Seq<Seq<char>>, id: Seq<char>)
    requires
        s.no_duplicates(),
        s.contains(id),
    ensures
        s.filter(matches_id(id)).len() == 1,
    decreases s.len(),
{
    reveal(Seq::filter);
    let dl = s.drop_last();
    assert(dl.no_duplicates());
    if s.last() == id {
        assert(s.filter(matches_id(id)) == dl.filter(matches_id(id)).push(s.last()));
        assert(dl.filter(matches_id(id)).len() == 0) by {
            if dl.filter(matches_id(id)).len() > 0 {
                let x = dl.filter(matches_id(id))[0];
                assert(dl.filter(matches_id(id)).contains(x));
                lemma_filter_member(dl, matches_id(id), x);
                assert(matches_id(id)(x));
                let j = choose|j: int| 0 <= j < dl.len() && dl[j] == x;
                assert(s[j] == s[s.len() - 1]);
            }
        }
    } else {
        assert(dl.contains(id)) by {
            let j = choose|j: int| 0 <= j < s.len() && s[j] == id;
            assert(dl[j] == id);
        }
        lemma_count_of_present_id(dl, id);
        assert(s.filter(matches_id(id)) == dl.filter(matches_id(id)));
    }
}

/// Every action preserves well-formedness of the state.
pub proof fn lemma_reduce_preserves_wf(s: StoreV, st: Option<Seq<char>>, a: ActionV)
    requires
        wf(s),
    ensures
        wf(spec_reduce(s, st, a).0),
{
    match a {
        ActionV::StartDownload(id) => {
            if !s.downloading.contains(id) {
                let d = s.downloading.push(id);
                assert forall|i: int, j: int|
                    0 <= i < d.len() && 0 <= j < d.len() && i != j implies d[i] != d[j] by {
                    if i < d.len() - 1 && j < d.len() - 1 {
                        assert(s.downloading[i] != s.downloading[j]);
                    } else if j == d.len() - 1 && i < d.len() - 1 {
                        assert(s.downloading.contains(s.downloading[i]));
                    } else if i == d.len() - 1 && j < d.len() - 1 {
                        assert(s.downloading.contains(s.downloading[j]));
                    }
                }
            }
        },
        ActionV::EndDownload(id) => {
            lemma_filter_no_duplicates(s.downloading, keeps_id(id));
        },
        _ => {},
    }
}

/// Starting the same download twice leaves its identifier among the
/// in-flight downloads exactly once.
pub proof fn lemma_start_download_once(s: StoreV, st: Option<Seq<char>>, id: Seq<char>)
    requires
        wf(s),
    ensures
        ({
            let once = spec_reduce(s, st, ActionV::StartDownload(id));
            let twice = spec_reduce(once.0, once.1, ActionV::StartDownload(id));
            twice.0.downloading.filter(matches_id(id)).len() == 1
        }),
{
    let once = spec_reduce(s, st, ActionV::StartDownload(id));
    lemma_reduce_preserves_wf(s, st, ActionV::StartDownload(id));
    assert(once.0.downloading.contains(id)) by {
        if !s.downloading.contains(id) {
            assert(once.0.downloading[s.downloading.len() as int] == id);
        }
    }
    lemma_count_of_present_id(once.0.downloading, id);
}

/// Ending a download whose identifier is not in flight changes nothing.
pub proof fn lemma_end_download_absent(s: StoreV, st: Option<Seq<char>>, id: Seq<char>)
    requires
        !s.downloading.contains(id),
    ensures
        spec_reduce(s, st, ActionV::EndDownload(id)) == (s, st),
{
    assert forall|i: int|
        0 <= i < s.downloading.len() implies #[trigger] keeps_id(id)(s.downloading[i]) by {
        assert(s.downloading.contains(s.downloading[i]));
    }
    lemma_filter_keeps_all(s.downloading, keeps_id(id));
    assert(spec_reduce(s, st, ActionV::EndDownload(id)).0 =~= s);
}

/// After removing an identifier, what a reload of the persisted value
/// yields is exactly the new list, and no record of it carries that
/// identifier.
pub proof fn lemma_remove_then_reload(s: StoreV, st: Option<Seq<char>>, id: Seq<char>)
    ensures
        ({
            let (s1, st1) = spec_reduce(s, st, ActionV::RemoveFile(id));
            load_spec(st1) == s1.files && forall|k: int|
                0 <= k < s1.files.len() ==> #[trigger] s1.files[k].file_id != id
        }),
{
    let files = s.files.filter(keeps_record(id));
    lemma_save_then_load(files);
    assert forall|k: int| 0 <= k < files.len() implies #[trigger] files[k].file_id != id by {
        s.files.lemma_filter_pred(keeps_record(id), k);
    }
}

/// Clearing all files erases the persisted value: a reload yields an empty
/// list, as the state holds.
pub proof fn lemma_clear_then_reload(s: StoreV, st: Option<Seq<char>>)
    ensures
        ({
            let (s1, st1) = spec_reduce(s, st, ActionV::ClearAll);
            load_spec(st1) == Seq::<FileV>::empty() && s1.files == Seq::<FileV>::empty()
        }),
{
}

/// The state and persisted value after adding each file of a sequence in
/// turn, oldest first.
pub open spec fn apply_adds(s: StoreV, st: Option<Seq<char>>, fs: Seq<FileV>) -> (StoreV, Option<
    Seq<char>,
>)
    decreases fs.len(),
{
    if fs.len() == 0 {
        (s, st)
    } else {
        let n = spec_reduce(s, st, ActionV::AddFile(fs[0]));
        apply_adds(n.0, n.1, fs.drop_first())
    }
}

/// However many files are added in turn, the list holds them newest first,
/// ahead of what was there before, and once at least one was added the
/// persisted value is the encoding of exactly that list.
#[verifier::rlimit(50)]
pub proof fn lemma_adds_newest_first(s: StoreV, st: Option<Seq<char>>, fs: Seq<FileV>)
    ensures
        apply_adds(s, st, fs).0.files == fs.reverse() + s.files,
        fs.len() > 0 ==> apply_adds(s, st, fs).1 == Some(
            spec_encode(apply_adds(s, st, fs).0.files),
        ),
    decreases fs.len(),
{
    if fs.len() == 0 {
        assert(fs.reverse() + s.files =~= s.files);
    } else {
        let n = spec_reduce(s, st, ActionV::AddFile(fs[0]));
        lemma_adds_newest_first(n.0, n.1, fs.drop_first());
        assert(fs.drop_first().reverse() + (seq![fs[0]] + s.files) =~= fs.reverse() + s.files);
    }
}

/// After every single add of such a run, the persisted value is the
/// encoding of the list as it then stands.
pub proof fn lemma_each_add_persists(s: StoreV, st: Option<Seq<char>>, fs: Seq<FileV>, k: int)
    requires
        0 < k <= fs.len(),
    ensures
        apply_adds(s, st, fs.take(k)).1 == Some(
            spec_encode(apply_adds(s, st, fs.take(k)).0.files),
        ),
{
    lemma_adds_newest_first(s, st, fs.take(k));
}

} // verus!
