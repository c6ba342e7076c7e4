//! Stage four: the download engine. The decision logic is here and
//! verified: the idempotent fast path for an existing destination, the
//! accumulation of streamed chunks into progress states, and the
//! temp-then-rename commit discipline that never exposes a partial
//! file at the destination. The actual socket and file I/O lives
//! outside the library and reports back through plain values.

use vstd::prelude::*;
use crate::error::Error;

verus! {

/// A progress event: bytes received so far, and the declared total
/// (zero when the server announced none).
#[derive(Debug, Clone, Copy, PartialEq, Eq, Structural, Default)]
pub struct DownloadState {
    pub current: u64,
    pub max: u64,
}

/// One download: fetch `url` into `filename`, optionally checking
/// `sha256` afterwards. The transfer streams into a sibling
/// `<filename>.part` and only a completed stream is renamed into
/// place.
#[derive(Debug, Clone)]
pub struct DownloadTask {
    pub url: String,
    pub filename: String,
    pub sha256: Option<String>,
    pub force: bool,
}

/// What the fetch decided to do.
#[derive(Debug, Clone, Copy, PartialEq, Eq, Structural)]
pub enum DownloadPlan {
    /// Destination already present and `force` off: report its length,
    /// touch nothing, issue no request.
    Reuse,
    /// Stream to the temp path, then rename.
    Fetch,
}

impl DownloadTask {
    pub fn new(url: String, filename: String, sha256: Option<String>) -> (r: DownloadTask)
        ensures
            r.url == url,
            r.filename == filename,
            r.sha256 == sha256,
            r.force == false,
    {
        DownloadTask { url, filename, sha256, force: false }
    }

    /// Set the force flag: a forced task re-downloads even over an
    /// existing destination.
    pub fn force(&mut self, force: bool)
        ensures
            final(self).force == force,
            final(self).url == old(self).url,
            final(self).filename == old(self).filename,
            final(self).sha256 == old(self).sha256,
    {
        self.force = force;
    }

    /// Decide between the idempotent fast path and a real fetch:
    /// an existing destination is reused exactly when `force` is off.
    pub fn plan(&self, dest_exists: bool) -> (r: DownloadPlan)
        ensures
            r == (if !self.force && dest_exists {
                DownloadPlan::Reuse
            } else {
                DownloadPlan::Fetch
            }),
    {
        if !self.force && dest_exists {
            DownloadPlan::Reuse
        } else {
            DownloadPlan::Fetch
        }
    }

    /// Outcome of `run` on the fast path: the destination's existing
    /// length is reported as both current and max, with no request.
    pub fn reuse_state(&self, existing_len: u64) -> (r: DownloadState)
        ensures
            r.current == existing_len,
            r.max == existing_len,
    {
        DownloadState { current: existing_len, max: existing_len }
    }

    /// The final state of one download, given what the world reported:
    /// on the idempotent fast path (`force` off, destination present)
    /// the existing length stands as both current and max and nothing
    /// was requested; otherwise the completed transfer's counts stand,
    /// and a transfer that never completed yields nothing — the stage
    /// driver records the transport failure.
    pub fn run(&self, dest_exists: bool, existing_len: u64, completed: Option<&Transfer>) -> (r:
        Option<DownloadState>)
        ensures
            (!self.force && dest_exists) ==> (r matches Some(s) && s.current == existing_len
                && s.max == existing_len),
            !(!self.force && dest_exists) ==> match completed {
                Some(t) => r matches Some(s) && s.current == t.received && s.max == t.total,
                None => r is None,
            },
    {
        if !self.force && dest_exists {
            Some(self.reuse_state(existing_len))
        } else {
            match completed {
                Some(t) => Some(DownloadState { current: t.received, max: t.total }),
                None => None,
            }
        }
    }
}

/// What the filesystem holds for one download: the destination and the
/// sibling `.part` file, each with a length when present. The transfer
/// below only ever touches the destination in `commit`.
#[derive(Debug, Clone, Copy, PartialEq, Eq, Structural)]
pub struct DownloadFiles {
    pub dest: Option<u64>,
    pub part: Option<u64>,
}

/// An in-flight streaming transfer over its filesystem model.
#[derive(Debug, Clone, Copy, PartialEq, Eq, Structural)]
pub struct Transfer {
    /// Bytes streamed into the temp file so far.
    pub received: u64,
    /// Declared content length; zero when the server sent none.
    pub total: u64,
    /// The filesystem as this transfer sees it.
    pub files: DownloadFiles,
}

impl Transfer {
    /// Begin streaming: the temp file is created empty, the
    /// destination is untouched.
    pub fn start(total: u64, dest: Option<u64>) -> (t: Transfer)
        ensures
            t.received == 0,
            t.total == total,
            t.files.dest == dest,
            t.files.part == Some(0u64),
    {
        Transfer { received: 0, total, files: DownloadFiles { dest, part: Some(0u64) } }
    }

    /// One chunk arrived: it goes to the temp file, the destination is
    /// untouched, and the returned progress event carries the
    /// accumulated count against the declared total.
    pub fn on_chunk(&mut self, n: u64) -> (ev: DownloadState)
        requires
            old(self).received + n <= u64::MAX,
            old(self).files.part is Some,
        ensures
            final(self).received == old(self).received + n,
            final(self).total == old(self).total,
            final(self).files.dest == old(self).files.dest,
            final(self).files.part == Some(final(self).received),
            ev.current == final(self).received,
            ev.max == old(self).total,
    {
        self.received = self.received + n;
        self.files.part = Some(self.received);
        DownloadState { current: self.received, max: self.total }
    }

    /// The stream ended cleanly: flush, then atomically rename the
    /// temp file onto the destination. Only here does the destination
    /// change, and it changes to the complete byte count in one step.
    pub fn commit(&mut self) -> (r: DownloadState)
        requires
            old(self).files.part is Some,
        ensures
            final(self).files.dest == Some(old(self).received),
            final(self).files.part is None,
            final(self).received == old(self).received,
            final(self).total == old(self).total,
            r.current == old(self).received,
            r.max == old(self).total,
    {
        self.files.dest = Some(self.received);
        self.files.part = None;
        DownloadState { current: self.received, max: self.total }
    }

    /// The stream broke or was cancelled: the temp file may linger but
    /// the destination is exactly what it was before the transfer.
    pub fn abort(&mut self)
        ensures
            final(self).files.dest == old(self).files.dest,
            final(self).files.part == old(self).files.part,
            final(self).received == old(self).received,
            final(self).total == old(self).total,
    {
    }
}

/// One observed event of a streaming transfer.
#[derive(Debug, Clone, Copy, PartialEq, Eq, Structural)]
pub enum TransferEvent {
    Chunk { n: u64 },
    Commit,
    Abort,
}

/// The filesystem after a transfer replays `events` from state `t`.
pub open spec fn spec_replay(t: Transfer, events: Seq<TransferEvent>) -> Transfer
    decreases events.len(),
{
    if events.len() == 0 {
        t
    } else {
        let rest = spec_replay(t, events.drop_last());
        match events.last() {
            TransferEvent::Chunk { n } => Transfer {
                received: (rest.received + n) as u64,
                files: DownloadFiles { dest: rest.files.dest, part: Some((rest.received + n) as u64) },
                ..rest
            },
            TransferEvent::Commit => Transfer {
                files: DownloadFiles { dest: Some(rest.received), part: None },
                ..rest
            },
            TransferEvent::Abort => rest,
        }
    }
}

/// Whether any event of the sequence is the commit.
pub open spec fn has_commit(events: Seq<TransferEvent>) -> bool {
    exists|i: int| 0 <= i < events.len() && events[i] is Commit
}

/// Download atomicity: however a stream of chunks ends, unless the
/// final rename ran, the destination is exactly what it was when the
/// transfer started — an interrupted download leaves no partial file
/// visible at the destination, only (at most) the `.part` sibling.
pub proof fn lemma_interrupted_stream_keeps_dest(t: Transfer, events: Seq<TransferEvent>)
    requires
        !has_commit(events),
    ensures
        spec_replay(t, events).files.dest == t.files.dest,
    decreases events.len(),
{
    if events.len() > 0 {
        assert(!has_commit(events.drop_last())) by {
            if has_commit(events.drop_last()) {
                let i = choose|i: int|
                    0 <= i < events.drop_last().len() && events.drop_last()[i] is Commit;
                assert(events[i] is Commit);
            }
        }
        lemma_interrupted_stream_keeps_dest(t, events.drop_last());
        assert(!(events.last() is Commit)) by {
            assert(events[events.len() - 1] == events.last());
        }
    }
}

/// How one package's download ended; reported by whoever performed
/// the I/O, consumed by the stage driver below.
#[derive(Debug, Clone)]
pub enum DownloadEvent {
    /// Destination already present with this length; no request made.
    Reused { existing_len: u64 },
    /// Stream completed and was renamed into place.
    Fetched { received: u64, total: u64 },
    /// Transport failure; the destination was left untouched.
    Failed { cause: String },
}

/// Relation between a package before and after the download stage.
pub open spec fn downloaded_rel(p: crate::package::Package, ev: DownloadEvent, q: crate::package::Package) -> bool {
    if !(p.stage == crate::package::Stage::SizeResolved && p.spec_active()) {
        q == p
    } else {
        &&& keeps_rest_download(p, q)
        &&& match ev {
            DownloadEvent::Reused { existing_len } => {
                &&& q.stage == crate::package::Stage::Downloaded
                &&& q.errors@ == p.errors@
            },
            DownloadEvent::Fetched { received, total } => {
                &&& q.stage == crate::package::Stage::Downloaded
                &&& q.errors@ == p.errors@
            },
            DownloadEvent::Failed { cause } => {
                &&& q.stage == p.stage
                &&& q.errors@.len() == p.errors@.len() + 1
                &&& q.errors@.subrange(0, p.errors@.len() as int) == p.errors@
                &&& (q.errors@.last() matches Error::DownloadFailed { package, cause: c }
                    && package@ == p.name@ && c@ == cause@)
            },
        }
    }
}

/// Fields the download stage never touches.
pub open spec fn keeps_rest_download(p: crate::package::Package, q: crate::package::Package) -> bool {
    &&& q.name == p.name
    &&& q.full_name == p.full_name
    &&& q.version == p.version
    &&& q.revision == p.revision
    &&& q.arch == p.arch
    &&& q.url == p.url
    &&& q.sha256 == p.sha256
    &&& q.relocate == p.relocate
    &&& q.rebuild == p.rebuild
    &&& q.size == p.size
    &&& q.download_size == p.download_size
    &&& q.package_name == p.package_name
    &&& q.keg == p.keg
    &&& q.files == p.files
    &&& q.explicit == p.explicit
    &&& q.required_by == p.required_by
    &&& q.patched_binaries == p.patched_binaries
    &&& q.patched_text == p.patched_text
    &&& q.links == p.links
}

/// Record one download outcome on one package.
pub fn download_one(p: crate::package::Package, ev: &DownloadEvent) -> (q: crate::package::Package)
    ensures
        downloaded_rel(p, *ev, q),
{
    let mut p = p;
    if !(matches!(p.stage, crate::package::Stage::SizeResolved) && p.active()) {
        return p;
    }
    match ev {
        DownloadEvent::Reused { existing_len: _ } => {
            p.stage = crate::package::Stage::Downloaded;
        },
        DownloadEvent::Fetched { received: _, total: _ } => {
            p.stage = crate::package::Stage::Downloaded;
        },
        DownloadEvent::Failed { cause } => {
            let ghost e0 = p.errors@;
            p.errors.push(
                Error::DownloadFailed { package: p.name.clone(), cause: cause.clone() },
            );
            proof {
                assert(p.errors@.subrange(0, e0.len() as int) =~= e0);
            }
        },
    }
    p
}

/// Stage driver: record download outcomes across the whole registry,
/// one event per package, in registry order.
pub struct Download {
    /// Failures of this stage live on the packages themselves.
    pub errors: Vec<Error>,
}

impl Download {
    pub fn run(&mut self, reg: &mut crate::package::PackageRegistry, events: &Vec<DownloadEvent>)
        requires
            old(reg).wf(),
            events@.len() == old(reg)@.len(),
        ensures
            final(reg).wf(),
            final(reg)@.len() == old(reg)@.len(),
            forall|i: int|
                0 <= i < old(reg)@.len() ==> downloaded_rel(
                    old(reg)@[i],
                    events@[i],
                    #[trigger] final(reg)@[i],
                ),
            *final(self) == *old(self),
    {
        let n: usize = reg.packages.len();
        let ghost reg0 = reg@;
        let mut i: usize = 0;
        while i < n
            invariant
                i <= n,
                n == reg@.len(),
                reg0.len() == n,
                events@.len() == n,
                forall|j: int| i <= j < n ==> reg@[j] == reg0[j],
                forall|j: int|
                    0 <= j < i ==> downloaded_rel(reg0[j], events@[j], #[trigger] reg@[j]),
                forall|j: int| 0 <= j < n ==> (#[trigger] reg@[j]).name@ == reg0[j].name@,
            decreases n - i,
        {
            let ghost before = reg@;
            let p = reg.packages.remove(i);
            let q = download_one(p, &events[i]);
            reg.packages.insert(i, q);
            proof {
                assert(reg@ =~= before.update(i as int, q));
                assert(downloaded_rel(reg0[i as int], events@[i as int], q));
                assert(q.name@ == reg0[i as int].name@);
            }
            i += 1;
        }
        proof {
            assert forall|a: int, b: int| 0 <= a < b < reg@.len() implies reg@[a].name@
                != reg@[b].name@ by {
                assert(reg0[a].name@ != reg0[b].name@);
            }
            assert(reg.wf());
        }
    }
}


/// The download stage only moves a package forward in the stage
/// order.
pub proof fn lemma_download_stage_monotone(
    p: crate::package::Package,
    ev: DownloadEvent,
    q: crate::package::Package,
)
    requires
        downloaded_rel(p, ev, q),
    ensures
        p.stage.rank() <= q.stage.rank(),
{
}

} // verus!
