//! The setup that the isolated child performs: mirroring the host root into
//! the new root, mounting the package store, entering the new root and
//! mapping the caller's identity.
use vstd::prelude::*;

use crate::bytes::{bytes_eq, join, join_path, lemma_join_injective};
use crate::identity::{identity_map, map_entry};

verus! {

/// `nix`: the top-level name reserved for the package store.
pub open spec fn store_name() -> Seq<u8> {
    seq![110u8, 105u8, 120u8]
}

/// `/`
pub open spec fn host_root() -> Seq<u8> {
    seq![47u8]
}

/// `/proc/self/setgroups`
pub open spec fn setgroups_path() -> Seq<u8> {
    seq![47u8, 112u8, 114u8, 111u8, 99u8, 47u8, 115u8, 101u8, 108u8, 102u8, 47u8, 115u8, 101u8, 116u8, 103u8, 114u8, 111u8, 117u8, 112u8, 115u8]
}

/// The reserved store name.
fn store_name_bytes() -> (r: Vec<u8>)
    ensures
        r@ == store_name(),
{
    vec![110u8, 105u8, 120u8]
}

/// `/proc/self/setgroups`
fn setgroups_path_bytes() -> (r: Vec<u8>)
    ensures
        r@ == setgroups_path(),
{
    vec![47u8, 112u8, 114u8, 111u8, 99u8, 47u8, 115u8, 101u8, 108u8, 102u8, 47u8, 115u8, 101u8, 116u8, 103u8, 114u8, 111u8, 117u8, 112u8, 115u8]
}

/// `deny`
fn deny_bytes() -> (r: Vec<u8>)
    ensures
        r@ == deny(),
{
    vec![100u8, 101u8, 110u8, 121u8]
}

/// `/proc/self/uid_map`
fn uid_map_path_bytes() -> (r: Vec<u8>)
    ensures
        r@ == uid_map_path(),
{
    vec![47u8, 112u8, 114u8, 111u8, 99u8, 47u8, 115u8, 101u8, 108u8, 102u8, 47u8, 117u8, 105u8, 100u8, 95u8, 109u8, 97u8, 112u8]
}

/// `/proc/self/gid_map`
fn gid_map_path_bytes() -> (r: Vec<u8>)
    ensures
        r@ == gid_map_path(),
{
    vec![47u8, 112u8, 114u8, 111u8, 99u8, 47u8, 115u8, 101u8, 108u8, 102u8, 47u8, 103u8, 105u8, 100u8, 95u8, 109u8, 97u8, 112u8]
}

/// The path of the host's root directory.
fn host_root_path() -> (r: Vec<u8>)
    ensures
        r@ == host_root(),
{
    vec![47u8]
}

/// `deny`
pub open spec fn deny() -> Seq<u8> {
    seq![100u8, 101u8, 110u8, 121u8]
}

/// `/proc/self/uid_map`
pub open spec fn uid_map_path() -> Seq<u8> {
    seq![47u8, 112u8, 114u8, 111u8, 99u8, 47u8, 115u8, 101u8, 108u8, 102u8, 47u8, 117u8, 105u8, 100u8, 95u8, 109u8, 97u8, 112u8]
}

/// `/proc/self/gid_map`
pub open spec fn gid_map_path() -> Seq<u8> {
    seq![47u8, 112u8, 114u8, 111u8, 99u8, 47u8, 115u8, 101u8, 108u8, 102u8, 47u8, 103u8, 105u8, 100u8, 95u8, 109u8, 97u8, 112u8]
}

/// What kind of file a top-level entry of the host root is.
#[derive(Clone, Copy, Debug, PartialEq, Eq, Structural)]
pub enum EntryKind {
    Directory,
    File,
    Symlink,
    Other,
}

/// One top-level entry of the host root: its file name and its kind.
#[derive(Debug)]
pub struct HostEntry {
    pub name: Vec<u8>,
    pub kind: EntryKind,
}

impl View for HostEntry {
    type V = (Seq<u8>, EntryKind);

    open spec fn view(&self) -> (Seq<u8>, EntryKind) {
        (self.name@, self.kind)
    }
}

/// What to do when a step fails.
#[derive(Clone, Copy, Debug, PartialEq, Eq, Structural)]
pub enum OnFailure {
    /// Report the failure and end the setup.
    Abort,
    /// Report the failure and go on with the next step.
    Warn,
    /// Go on with the next step without a word.
    Ignore,
}

/// One operation of the setup, on byte paths.
#[derive(Debug)]
pub enum SetupStep {
    /// Create the directory `path`; where `existing_ok`, an existing one is
    /// no failure.
    CreateDir { path: Vec<u8>, existing_ok: bool },
    /// Create the empty file `path`.
    CreateFile { path: Vec<u8> },
    /// Bind `source`, with everything mounted below it, onto `dest`; where
    /// `required`, the setup cannot go on without it.
    BindMount { source: Vec<u8>, dest: Vec<u8>, required: bool },
    /// Create at `dest` a symlink with the same target as the one at `source`.
    CopySymlink { source: Vec<u8>, dest: Vec<u8> },
    /// Make `path` the root directory.
    Chroot { path: Vec<u8> },
    /// Make `path` the working directory.
    ChangeDir { path: Vec<u8> },
    /// Create or truncate the file `path` and write `contents` into it; where
    /// not `required`, a failure is passed over.
    WriteFile { path: Vec<u8>, contents: Vec<u8>, required: bool },
}

/// A setup step with its paths as byte sequences.
pub enum StepModel {
    CreateDir { path: Seq<u8>, existing_ok: bool },
    CreateFile { path: Seq<u8> },
    BindMount { source: Seq<u8>, dest: Seq<u8>, required: bool },
    CopySymlink { source: Seq<u8>, dest: Seq<u8> },
    Chroot { path: Seq<u8> },
    ChangeDir { path: Seq<u8> },
    WriteFile { path: Seq<u8>, contents: Seq<u8>, required: bool },
}

impl View for SetupStep {
    type V = StepModel;

    open spec fn view(&self) -> StepModel {
        match self {
            SetupStep::CreateDir { path, existing_ok } => StepModel::CreateDir {
                path: path@,
                existing_ok: *existing_ok,
            },
            SetupStep::CreateFile { path } => StepModel::CreateFile { path: path@ },
            SetupStep::BindMount { source, dest, required } => StepModel::BindMount {
                source: source@,
                dest: dest@,
                required: *required,
            },
            SetupStep::CopySymlink { source, dest } => StepModel::CopySymlink {
                source: source@,
                dest: dest@,
            },
            SetupStep::Chroot { path } => StepModel::Chroot { path: path@ },
            SetupStep::ChangeDir { path } => StepModel::ChangeDir { path: path@ },
            SetupStep::WriteFile { path, contents, required } => StepModel::WriteFile {
                path: path@,
                contents: contents@,
                required: *required,
            },
        }
    }
}

/// The policy for each kind of step: which failures end the setup, which are
/// reported and passed over, and which are passed over silently.
pub open spec fn failure_policy(s: StepModel) -> OnFailure {
    match s {
        StepModel::BindMount { required, .. } => if required {
            OnFailure::Abort
        } else {
            OnFailure::Warn
        },
        StepModel::WriteFile { required, .. } => if required {
            OnFailure::Abort
        } else {
            OnFailure::Ignore
        },
        _ => OnFailure::Abort,
    }
}

impl SetupStep {
    /// What a failure of this step means for the rest of the setup.
    pub fn on_failure(&self) -> (r: OnFailure)
        ensures
            r == failure_policy(self@),
    {
        match self {
            SetupStep::BindMount { required, .. } => if *required {
                OnFailure::Abort
            } else {
                OnFailure::Warn
            },
            SetupStep::WriteFile { required, .. } => if *required {
                OnFailure::Abort
            } else {
                OnFailure::Ignore
            },
            _ => OnFailure::Abort,
        }
    }
}

/// The models of a sequence of steps.
pub open spec fn steps_view(v: Seq<SetupStep>) -> Seq<StepModel> {
    v.map_values(|s: SetupStep| s@)
}

/// The steps that mirror a host entry `name` of the kind `kind` into `root`:
/// a directory or a file gets a mount point, then the host's one bound onto
/// it; a symlink is recreated; other kinds get nothing.
pub open spec fn kind_steps(root: Seq<u8>, name: Seq<u8>, kind: EntryKind) -> Seq<StepModel> {
    let dest = join(root, name);
    let source = join(host_root(), name);
    match kind {
        EntryKind::Directory => seq![
            StepModel::CreateDir { path: dest, existing_ok: true },
            StepModel::BindMount { source, dest, required: false },
        ],
        EntryKind::File => seq![
            StepModel::CreateFile { path: dest },
            StepModel::BindMount { source, dest, required: false },
        ],
        EntryKind::Symlink => seq![StepModel::CopySymlink { source, dest }],
        EntryKind::Other => Seq::empty(),
    }
}

/// The steps that mirror one host entry into `root`: none for the reserved
/// store name, else those of its kind.
pub open spec fn entry_steps(root: Seq<u8>, e: (Seq<u8>, EntryKind)) -> Seq<StepModel> {
    if e.0 == store_name() {
        Seq::empty()
    } else {
        kind_steps(root, e.0, e.1)
    }
}

/// The steps that mirror the host entries `es` into `root`, entry by entry.
pub open spec fn mirror_model(root: Seq<u8>, es: Seq<(Seq<u8>, EntryKind)>) -> Seq<StepModel>
    decreases es.len(),
{
    if es.len() == 0 {
        Seq::empty()
    } else {
        mirror_model(root, es.drop_last()) + entry_steps(root, es.last())
    }
}

/// The steps that put the package store `store` at the reserved name in `root`.
pub open spec fn store_model(root: Seq<u8>, store: Seq<u8>) -> Seq<StepModel> {
    let dest = join(root, store_name());
    seq![
        StepModel::CreateDir { path: dest, existing_ok: false },
        StepModel::BindMount { source: store, dest, required: true },
    ]
}

/// The steps after the mounts: enter `root`, turn off `setgroups` where the
/// kernel has it, map `uid` and `gid` to themselves, and go back to `cwd`.
pub open spec fn enter_model(root: Seq<u8>, cwd: Seq<u8>, uid: nat, gid: nat) -> Seq<StepModel> {
    seq![
        StepModel::Chroot { path: root },
        StepModel::ChangeDir { path: host_root() },
        StepModel::WriteFile { path: setgroups_path(), contents: deny(), required: false },
        StepModel::WriteFile { path: uid_map_path(), contents: map_entry(uid, uid, 1), required: true },
        StepModel::WriteFile { path: gid_map_path(), contents: map_entry(gid, gid, 1), required: true },
        StepModel::ChangeDir { path: cwd },
    ]
}

/// The whole setup of the isolated child.
pub open spec fn setup_model(
    root: Seq<u8>,
    es: Seq<(Seq<u8>, EntryKind)>,
    store: Seq<u8>,
    cwd: Seq<u8>,
    uid: nat,
    gid: nat,
) -> Seq<StepModel> {
    mirror_model(root, es) + store_model(root, store) + enter_model(root, cwd, uid, gid)
}

/// The models of a list of host entries.
pub open spec fn entries_view(v: Seq<HostEntry>) -> Seq<(Seq<u8>, EntryKind)> {
    v.map_values(|e: HostEntry| e@)
}

/// Appends `more` to `out`.
fn append_steps(out: &mut Vec<SetupStep>, more: Vec<SetupStep>)
    ensures
        steps_view(final(out)@) == steps_view(old(out)@) + steps_view(more@),
{
    let ghost added = more@;
    let mut more = more;
    out.append(&mut more);
    proof {
        assert(steps_view(final(out)@) =~= steps_view(old(out)@) + steps_view(added));
    }
}

/// The builder of the new root directory of one run.
pub struct RunChroot<'a> {
    rootdir: &'a [u8],
}

impl<'a> RunChroot<'a> {
    /// The path of the new root directory.
    pub closed spec fn root(&self) -> Seq<u8> {
        self.rootdir@
    }

    /// A builder for the new root directory `rootdir`.
    pub fn new(rootdir: &'a [u8]) -> (r: Self)
        ensures
            r.root() == rootdir@,
    {
        Self { rootdir }
    }

    /// The steps for the host directory `name`.
    pub fn bind_mount_directory(&self, name: &[u8]) -> (r: Vec<SetupStep>)
        ensures
            steps_view(r@) == kind_steps(self.root(), name@, EntryKind::Directory),
    {
        let dest = join_path(self.rootdir, name);
        let source = join_path(host_root_path().as_slice(), name);
        let r = vec![
            SetupStep::CreateDir { path: join_path(self.rootdir, name), existing_ok: true },
            SetupStep::BindMount { source, dest, required: false },
        ];
        proof {
            assert(steps_view(r@) =~= kind_steps(self.root(), name@, EntryKind::Directory));
        }
        r
    }

    /// The steps for the host file `name`.
    pub fn bind_mount_file(&self, name: &[u8]) -> (r: Vec<SetupStep>)
        ensures
            steps_view(r@) == kind_steps(self.root(), name@, EntryKind::File),
    {
        let dest = join_path(self.rootdir, name);
        let source = join_path(host_root_path().as_slice(), name);
        let r = vec![
            SetupStep::CreateFile { path: join_path(self.rootdir, name) },
            SetupStep::BindMount { source, dest, required: false },
        ];
        proof {
            assert(steps_view(r@) =~= kind_steps(self.root(), name@, EntryKind::File));
        }
        r
    }

    /// The steps for the host symlink `name`.
    pub fn mirror_symlink(&self, name: &[u8]) -> (r: Vec<SetupStep>)
        ensures
            steps_view(r@) == kind_steps(self.root(), name@, EntryKind::Symlink),
    {
        let dest = join_path(self.rootdir, name);
        let source = join_path(host_root_path().as_slice(), name);
        let r = vec![SetupStep::CopySymlink { source, dest }];
        proof {
            assert(steps_view(r@) =~= kind_steps(self.root(), name@, EntryKind::Symlink));
        }
        r
    }

    /// The steps that mirror one host entry, by its kind; none for the
    /// reserved store name, which only the store is mounted at.
    pub fn bind_mount_direntry(&self, entry: &HostEntry) -> (r: Vec<SetupStep>)
        ensures
            steps_view(r@) == entry_steps(self.root(), entry@),
    {
        if bytes_eq(entry.name.as_slice(), store_name_bytes().as_slice()) {
            let r: Vec<SetupStep> = Vec::new();
            proof {
                assert(steps_view(r@) =~= entry_steps(self.root(), entry@));
            }
            return r;
        }
        match entry.kind {
            EntryKind::Directory => self.bind_mount_directory(entry.name.as_slice()),
            EntryKind::File => self.bind_mount_file(entry.name.as_slice()),
            EntryKind::Symlink => self.mirror_symlink(entry.name.as_slice()),
            EntryKind::Other => {
                let r: Vec<SetupStep> = Vec::new();
                proof {
                    assert(steps_view(r@) =~= entry_steps(self.root(), entry@));
                }
                r
            },
        }
    }

    /// The steps that mirror the host entries `entries`, in their order.
    pub fn mirror_entries(&self, entries: &Vec<HostEntry>) -> (r: Vec<SetupStep>)
        ensures
            steps_view(r@) == mirror_model(self.root(), entries_view(entries@)),
    {
        let mut r: Vec<SetupStep> = Vec::new();
        let mut i: usize = 0;
        while i < entries.len()
            invariant
                i <= entries@.len(),
                steps_view(r@) == mirror_model(
                    self.root(),
                    entries_view(entries@).subrange(0, i as int),
                ),
            decreases entries@.len() - i,
        {
            let more = self.bind_mount_direntry(&entries[i]);
            append_steps(&mut r, more);
            proof {
                let es = entries_view(entries@).subrange(0, i + 1);
                assert(es.drop_last() =~= entries_view(entries@).subrange(0, i as int));
                assert(es.last() == entries@[i as int]@);
            }
            i = i + 1;
        }
        proof {
            assert(entries_view(entries@).subrange(0, entries@.len() as int) =~= entries_view(
                entries@,
            ));
            assert(steps_view(Seq::<SetupStep>::empty()) =~= Seq::<StepModel>::empty());
        }
        r
    }

    /// The steps that mount the package store `store` at the reserved name.
    pub fn mount_store(&self, store: &[u8]) -> (r: Vec<SetupStep>)
        ensures
            steps_view(r@) == store_model(self.root(), store@),
    {
        let name = store_name_bytes();
        let mut source: Vec<u8> = Vec::new();
        crate::bytes::append_bytes(&mut source, store);
        let r = vec![
            SetupStep::CreateDir { path: join_path(self.rootdir, name.as_slice()), existing_ok: false },
            SetupStep::BindMount { source, dest: join_path(self.rootdir, name.as_slice()), required: true },
        ];
        proof {
            assert(Seq::<u8>::empty() + store@ =~= store@);
            assert(steps_view(r@) =~= store_model(self.root(), store@));
        }
        r
    }

    /// The steps that enter the new root and map `uid` and `gid` to
    /// themselves, then return to the working directory `cwd`.
    pub fn enter_root(&self, cwd: &[u8], uid: u32, gid: u32) -> (r: Vec<SetupStep>)
        ensures
            steps_view(r@) == enter_model(self.root(), cwd@, uid as nat, gid as nat),
    {
        let mut root: Vec<u8> = Vec::new();
        crate::bytes::append_bytes(&mut root, self.rootdir);
        let mut back: Vec<u8> = Vec::new();
        crate::bytes::append_bytes(&mut back, cwd);
        let r = vec![
            SetupStep::Chroot { path: root },
            SetupStep::ChangeDir { path: host_root_path() },
            SetupStep::WriteFile { path: setgroups_path_bytes(), contents: deny_bytes(), required: false },
            SetupStep::WriteFile { path: uid_map_path_bytes(), contents: identity_map(uid), required: true },
            SetupStep::WriteFile { path: gid_map_path_bytes(), contents: identity_map(gid), required: true },
            SetupStep::ChangeDir { path: back },
        ];
        proof {
            assert(Seq::<u8>::empty() + self.root() =~= self.root());
            assert(Seq::<u8>::empty() + cwd@ =~= cwd@);
            assert(steps_view(r@) =~= enter_model(self.root(), cwd@, uid as nat, gid as nat));
        }
        r
    }

    /// The whole setup of the isolated child, in order: mirror the host
    /// entries `entries`, mount the package store `store`, enter the new root,
    /// map `uid` and `gid` to themselves and return to `cwd`.
    pub fn setup_plan(
        &self,
        entries: &Vec<HostEntry>,
        store: &[u8],
        cwd: &[u8],
        uid: u32,
        gid: u32,
    ) -> (r: Vec<SetupStep>)
        ensures
            steps_view(r@) == setup_model(
                self.root(),
                entries_view(entries@),
                store@,
                cwd@,
                uid as nat,
                gid as nat,
            ),
    {
        let mut r = self.mirror_entries(entries);
        append_steps(&mut r, self.mount_store(store));
        append_steps(&mut r, self.enter_root(cwd, uid, gid));
        r
    }
}

/// The path that a step creates or mounts onto, if any.
pub open spec fn placed_at(s: StepModel) -> Option<Seq<u8>> {
    match s {
        StepModel::CreateDir { path, .. } => Some(path),
        StepModel::CreateFile { path } => Some(path),
        StepModel::BindMount { dest, .. } => Some(dest),
        StepModel::CopySymlink { dest, .. } => Some(dest),
        _ => None,
    }
}

/// Whether `s` creates at `path` an entry of the kind `kind`.
pub open spec fn creates(s: StepModel, path: Seq<u8>, kind: EntryKind) -> bool {
    match kind {
        EntryKind::Directory => s == StepModel::CreateDir { path, existing_ok: true },
        EntryKind::File => s == StepModel::CreateFile { path },
        EntryKind::Symlink => exists|source: Seq<u8>| s == StepModel::CopySymlink { source, dest: path },
        EntryKind::Other => false,
    }
}

/// Every step of one entry's mirroring is among the steps for the list.
proof fn lemma_mirror_holds_entry(root: Seq<u8>, es: Seq<(Seq<u8>, EntryKind)>, i: int)
    requires
        0 <= i < es.len(),
    ensures
        forall|k: int|
            0 <= k < entry_steps(root, es[i]).len() ==> mirror_model(root, es).contains(
                #[trigger] entry_steps(root, es[i])[k],
            ),
    decreases es.len(),
{
    let m = mirror_model(root, es);
    let pre = mirror_model(root, es.drop_last());
    let last = entry_steps(root, es.last());
    assert(m == pre + last);
    if i == es.len() - 1 {
        assert forall|k: int| 0 <= k < last.len() implies m.contains(#[trigger] last[k]) by {
            assert(m[pre.len() + k] == last[k]);
        }
    } else {
        lemma_mirror_holds_entry(root, es.drop_last(), i);
        assert(es.drop_last()[i] == es[i]);
        let e = entry_steps(root, es[i]);
        assert forall|k: int| 0 <= k < e.len() implies m.contains(#[trigger] e[k]) by {
            assert(pre.contains(e[k]));
            let j = choose|j: int| 0 <= j < pre.len() && pre[j] == e[k];
            assert(m[j] == e[k]);
        }
    }
}

/// Every step of the mirroring places something, if anything, at the path of
/// an entry with another name than the reserved one.
proof fn lemma_mirror_places(root: Seq<u8>, es: Seq<(Seq<u8>, EntryKind)>, k: int)
    requires
        0 <= k < mirror_model(root, es).len(),
    ensures
        placed_at(mirror_model(root, es)[k]) is Some ==> exists|i: int|
            0 <= i < es.len() && es[i].0 != store_name() && placed_at(mirror_model(root, es)[k])
                == Some(join(root, #[trigger] es[i].0)),
    decreases es.len(),
{
    let pre = mirror_model(root, es.drop_last());
    let last = entry_steps(root, es.last());
    assert(mirror_model(root, es) == pre + last);
    if k < pre.len() {
        lemma_mirror_places(root, es.drop_last(), k);
        if placed_at(pre[k]) is Some {
            let i = choose|i: int|
                0 <= i < es.drop_last().len() && es.drop_last()[i].0 != store_name()
                    && placed_at(pre[k]) == Some(join(root, #[trigger] es.drop_last()[i].0));
            assert(es[i] == es.drop_last()[i]);
        }
    } else {
        let i = es.len() - 1;
        assert(es[i] == es.last());
    }
}

/// Completeness of the mirror: for every host entry of a directory, a file
/// or a symlink, other than the reserved store name, the setup creates an
/// entry of the same kind at the same name in the new root, and a directory
/// or a file gets the host's one bound onto it.
pub proof fn lemma_mirror_complete(
    root: Seq<u8>,
    es: Seq<(Seq<u8>, EntryKind)>,
    store: Seq<u8>,
    cwd: Seq<u8>,
    uid: nat,
    gid: nat,
    i: int,
)
    requires
        0 <= i < es.len(),
        es[i].0 != store_name(),
        es[i].1 != EntryKind::Other,
    ensures
        ({
            let plan = setup_model(root, es, store, cwd, uid, gid);
            let dest = join(root, es[i].0);
            &&& exists|k: int| 0 <= k < plan.len() && creates(#[trigger] plan[k], dest, es[i].1)
            &&& (es[i].1 == EntryKind::Directory || es[i].1 == EntryKind::File) ==> plan.contains(
                StepModel::BindMount { source: join(host_root(), es[i].0), dest, required: false },
            )
        }),
{
    let plan = setup_model(root, es, store, cwd, uid, gid);
    let m = mirror_model(root, es);
    let e = entry_steps(root, es[i]);
    lemma_mirror_holds_entry(root, es, i);
    assert(plan == m + store_model(root, store) + enter_model(root, cwd, uid, gid));
    assert(m.contains(e[0]));
    let j = choose|j: int| 0 <= j < m.len() && m[j] == e[0];
    assert(plan[j] == e[0]);
    assert(creates(plan[j], join(root, es[i].0), es[i].1));
    if es[i].1 == EntryKind::Directory || es[i].1 == EntryKind::File {
        assert(m.contains(e[1]));
        let j2 = choose|j2: int| 0 <= j2 < m.len() && m[j2] == e[1];
        assert(plan[j2] == e[1]);
    }
}

/// The reserved store name is never mirrored: whatever the host entries, also
/// one with that name, every step of the setup that creates or mounts onto
/// that name in the new root is one of the two store steps, which create it
/// as a fresh directory and bind the supplied store onto it.
pub proof fn lemma_store_only_from_supplied(
    root: Seq<u8>,
    es: Seq<(Seq<u8>, EntryKind)>,
    store: Seq<u8>,
    cwd: Seq<u8>,
    uid: nat,
    gid: nat,
)
    ensures
        ({
            let plan = setup_model(root, es, store, cwd, uid, gid);
            let dest = join(root, store_name());
            &&& forall|k: int|
                0 <= k < plan.len() && placed_at(#[trigger] plan[k]) == Some(dest) ==> (plan[k]
                    == StepModel::CreateDir { path: dest, existing_ok: false } || plan[k]
                    == StepModel::BindMount { source: store, dest, required: true })
            &&& plan.contains(StepModel::CreateDir { path: dest, existing_ok: false })
            &&& plan.contains(StepModel::BindMount { source: store, dest, required: true })
        }),
{
    let plan = setup_model(root, es, store, cwd, uid, gid);
    let m = mirror_model(root, es);
    let st = store_model(root, store);
    let en = enter_model(root, cwd, uid, gid);
    let dest = join(root, store_name());
    assert(plan == m + st + en);
    assert forall|k: int|
        0 <= k < plan.len() && placed_at(#[trigger] plan[k]) == Some(dest) implies (plan[k]
            == StepModel::CreateDir { path: dest, existing_ok: false } || plan[k]
            == StepModel::BindMount { source: store, dest, required: true }) by {
        if k < m.len() {
            assert(plan[k] == m[k]);
            lemma_mirror_places(root, es, k);
            let i = choose|i: int|
                0 <= i < es.len() && es[i].0 != store_name() && placed_at(m[k]) == Some(
                    join(root, #[trigger] es[i].0),
                );
            lemma_join_injective(root, es[i].0, store_name());
        } else if k >= m.len() + st.len() {
            assert(plan[k] == en[k - m.len() - st.len()]);
        }
    }
    assert(plan[m.len() as int] == st[0]);
    assert(plan[m.len() as int + 1] == st[1]);
}

/// Whether `s` writes into the file `path`.
pub open spec fn writes(s: StepModel, path: Seq<u8>) -> bool {
    match s {
        StepModel::WriteFile { path: p, .. } => p == path,
        _ => false,
    }
}

/// Mirroring writes into no file.
proof fn lemma_mirror_writes_nothing(root: Seq<u8>, es: Seq<(Seq<u8>, EntryKind)>)
    ensures
        forall|k: int|
            0 <= k < mirror_model(root, es).len() ==> !(#[trigger] mirror_model(root, es)[k] is WriteFile),
    decreases es.len(),
{
    if es.len() > 0 {
        lemma_mirror_writes_nothing(root, es.drop_last());
        let pre = mirror_model(root, es.drop_last());
        let m = mirror_model(root, es);
        assert(m == pre + entry_steps(root, es.last()));
        assert forall|k: int| 0 <= k < m.len() implies !(#[trigger] m[k] is WriteFile) by {
            if k < pre.len() {
                assert(m[k] == pre[k]);
            }
        }
    }
}

/// The identity is kept: the setup writes the uid map and the gid map
/// exactly once each, each with the single entry that maps the caller's id
/// to itself, and only after `setgroups` has been turned off.
pub proof fn lemma_identity_maps_once(
    root: Seq<u8>,
    es: Seq<(Seq<u8>, EntryKind)>,
    store: Seq<u8>,
    cwd: Seq<u8>,
    uid: nat,
    gid: nat,
)
    ensures
        ({
            let plan = setup_model(root, es, store, cwd, uid, gid);
            exists|ks: int, ku: int, kg: int|
                0 <= ks < ku && ks < kg && ku < plan.len() && kg < plan.len()
                    && #[trigger] plan[ks] == StepModel::WriteFile {
                    path: setgroups_path(),
                    contents: deny(),
                    required: false,
                } && #[trigger] plan[ku] == StepModel::WriteFile {
                    path: uid_map_path(),
                    contents: map_entry(uid, uid, 1),
                    required: true,
                } && #[trigger] plan[kg] == StepModel::WriteFile {
                    path: gid_map_path(),
                    contents: map_entry(gid, gid, 1),
                    required: true,
                } && (forall|k: int| 0 <= k < plan.len() && writes(#[trigger] plan[k], uid_map_path()) ==> k == ku)
                    && (forall|k: int| 0 <= k < plan.len() && writes(#[trigger] plan[k], gid_map_path()) ==> k == kg)
        }),
{
    let plan = setup_model(root, es, store, cwd, uid, gid);
    let m = mirror_model(root, es);
    let st = store_model(root, store);
    let en = enter_model(root, cwd, uid, gid);
    assert(plan == m + st + en);
    lemma_mirror_writes_nothing(root, es);
    let base = (m.len() + st.len()) as int;
    let ks = base + 2;
    let ku = base + 3;
    let kg = base + 4;
    assert(plan[ks] == en[2]);
    assert(plan[ku] == en[3]);
    assert(plan[kg] == en[4]);
    assert(uid_map_path()[11] != setgroups_path()[11]);
    assert(uid_map_path()[11] != gid_map_path()[11]);
    assert forall|k: int| 0 <= k < plan.len() && writes(#[trigger] plan[k], uid_map_path()) implies k
        == ku by {
        if k < m.len() {
            assert(plan[k] == m[k]);
        } else if k < base {
            assert(plan[k] == st[k - m.len()]);
        } else {
            assert(plan[k] == en[k - base]);
        }
    }
    assert forall|k: int| 0 <= k < plan.len() && writes(#[trigger] plan[k], gid_map_path()) implies k
        == kg by {
        if k < m.len() {
            assert(plan[k] == m[k]);
        } else if k < base {
            assert(plan[k] == st[k - m.len()]);
        } else {
            assert(plan[k] == en[k - base]);
        }
    }
}

} // verus!
