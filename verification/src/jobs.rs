//! The background-job lock: at most one export, build or launch runs at a time; what the status
//! line says while a job runs and when its outcome arrives; and which texture sets an export
//! writes after the map.

use vstd::prelude::*;

use crate::assets::{clone_defs, defs_view, TextureGroup};
use crate::compose::TextureDef;

verus! {

/// A job that runs off the UI thread.
#[derive(Debug, Clone, Copy, PartialEq, Eq, Structural)]
pub enum JobKind {
    /// Map WAD export.
    Export,
    /// PNG encode and write of a rendered map image.
    PngExport,
    /// BSP build for the animation only, no file written.
    Build,
    /// Play-test launch.
    Launch,
}

impl JobKind {
    /// Status line while the job runs.
    pub fn running_label(self) -> (text: &'static str)
        ensures
            text@ == match self {
                JobKind::Export => "exporting…"@,
                JobKind::PngExport => "exporting png…"@,
                JobKind::Build => "building BSP…"@,
                JobKind::Launch => "launching…"@,
            },
    {
        match self {
            JobKind::Export => "exporting…",
            JobKind::PngExport => "exporting png…",
            JobKind::Build => "building BSP…",
            JobKind::Launch => "launching…",
        }
    }
}

/// What the status line says once a job's outcome arrived.
#[derive(Debug, Clone, Copy, PartialEq, Eq, Structural)]
pub enum JobStatus {
    /// Export written; the status line names the file after this label.
    Exported,
    ExportFailed,
    PngExported,
    PngExportFailed,
    BspBuilt,
    BuildFailed,
    Launched,
    LaunchFailed,
}

impl JobStatus {
    /// Status line text.
    pub fn label(self) -> (text: &'static str)
        ensures
            text@ == match self {
                JobStatus::Exported => "exported"@,
                JobStatus::ExportFailed => "export failed"@,
                JobStatus::PngExported => "png exported"@,
                JobStatus::PngExportFailed => "png export failed"@,
                JobStatus::BspBuilt => "BSP built"@,
                JobStatus::BuildFailed => "build failed"@,
                JobStatus::Launched => "launched"@,
                JobStatus::LaunchFailed => "launch failed"@,
            },
    {
        match self {
            JobStatus::Exported => "exported",
            JobStatus::ExportFailed => "export failed",
            JobStatus::PngExported => "png exported",
            JobStatus::PngExportFailed => "png export failed",
            JobStatus::BspBuilt => "BSP built",
            JobStatus::BuildFailed => "build failed",
            JobStatus::Launched => "launched",
            JobStatus::LaunchFailed => "launch failed",
        }
    }
}

/// What follows a finished job.
#[derive(Debug, Clone, Copy, PartialEq, Eq, Structural)]
pub struct JobEnd {
    pub status: JobStatus,
    /// Replay the recorded BSP build (successful export or build).
    pub play_build_anim: bool,
}

/// The status and follow-up for a job of `kind` whose outcome was `ok`.
pub open spec fn job_end(kind: JobKind, ok: bool) -> JobEnd {
    match kind {
        JobKind::Export => JobEnd {
            status: if ok { JobStatus::Exported } else { JobStatus::ExportFailed },
            play_build_anim: ok,
        },
        JobKind::PngExport => JobEnd {
            status: if ok { JobStatus::PngExported } else { JobStatus::PngExportFailed },
            play_build_anim: false,
        },
        JobKind::Build => JobEnd {
            status: if ok { JobStatus::BspBuilt } else { JobStatus::BuildFailed },
            play_build_anim: ok,
        },
        JobKind::Launch => JobEnd {
            status: if ok { JobStatus::Launched } else { JobStatus::LaunchFailed },
            play_build_anim: false,
        },
    }
}

/// How a job ends: the status says success exactly when the outcome was ok, each kind has its
/// own pair of statuses, and only a successful export or BSP build replays the build.
pub proof fn lemma_job_end_law(kind: JobKind, ok: bool)
    ensures
        job_end(kind, ok).play_build_anim == (ok && (kind == JobKind::Export || kind == JobKind::Build)),
        ok == (job_end(kind, ok).status == JobStatus::Exported || job_end(kind, ok).status
            == JobStatus::PngExported || job_end(kind, ok).status == JobStatus::BspBuilt || job_end(kind, ok).status
            == JobStatus::Launched),
        (job_end(kind, ok).status == JobStatus::Exported || job_end(kind, ok).status == JobStatus::ExportFailed)
            == (kind == JobKind::Export),
        (job_end(kind, ok).status == JobStatus::PngExported || job_end(kind, ok).status
            == JobStatus::PngExportFailed) == (kind == JobKind::PngExport),
        (job_end(kind, ok).status == JobStatus::BspBuilt || job_end(kind, ok).status == JobStatus::BuildFailed)
            == (kind == JobKind::Build),
        (job_end(kind, ok).status == JobStatus::Launched || job_end(kind, ok).status == JobStatus::LaunchFailed)
            == (kind == JobKind::Launch),
{
}

/// Whether a background job is running.
#[derive(Debug, Clone, Copy, PartialEq, Eq, Structural)]
pub struct JobLock {
    pub busy: bool,
}

/// A new job may start.
pub open spec fn accepts_job(lock: JobLock) -> bool {
    !lock.busy
}

/// The lock after a start request: held, whether or not this request got it.
pub open spec fn after_start(lock: JobLock) -> JobLock {
    JobLock { busy: true }
}

/// The lock after a job's outcome arrived.
pub open spec fn after_finish(lock: JobLock) -> JobLock {
    JobLock { busy: false }
}

impl Default for JobLock {
    fn default() -> (lock: Self)
        ensures
            accepts_job(lock),
    {
        JobLock { busy: false }
    }
}

impl JobLock {
    /// Claims the lock for a new job. Refused, with nothing changed, while another job runs.
    pub fn try_start(&mut self) -> (started: bool)
        ensures
            started == accepts_job(*old(self)),
            *final(self) == after_start(*old(self)),
    {
        if self.busy {
            false
        } else {
            self.busy = true;
            true
        }
    }

    /// Releases the lock as the outcome of a job of `kind` arrives, and says what follows.
    pub fn finish(&mut self, kind: JobKind, ok: bool) -> (end: JobEnd)
        ensures
            *final(self) == after_finish(*old(self)),
            end == job_end(kind, ok),
    {
        self.busy = false;
        match kind {
            JobKind::Export => JobEnd {
                status: if ok { JobStatus::Exported } else { JobStatus::ExportFailed },
                play_build_anim: ok,
            },
            JobKind::PngExport => JobEnd {
                status: if ok { JobStatus::PngExported } else { JobStatus::PngExportFailed },
                play_build_anim: false,
            },
            JobKind::Build => JobEnd {
                status: if ok { JobStatus::BspBuilt } else { JobStatus::BuildFailed },
                play_build_anim: ok,
            },
            JobKind::Launch => JobEnd {
                status: if ok { JobStatus::Launched } else { JobStatus::LaunchFailed },
                play_build_anim: false,
            },
        }
    }
}

/// One job at a time: once a start request was made, a second one is refused until an outcome
/// arrives, and after any outcome the next start is accepted.
pub proof fn lemma_one_job_at_a_time(lock: JobLock)
    ensures
        !accepts_job(after_start(lock)),
        accepts_job(after_finish(lock)),
        accepts_job(after_finish(after_start(lock))),
{
}

/// The texture sets an export writes after the map: those of the edited groups that define at
/// least one texture, in group order.
pub open spec fn edited_sets(
    groups: Seq<TextureGroup>,
) -> Seq<Seq<(Seq<char>, i32, i32, Seq<(Seq<char>, i32, i32)>)>>
    decreases groups.len(),
{
    if groups.len() == 0 {
        Seq::empty()
    } else {
        let g = groups.last();
        let rest = edited_sets(groups.drop_last());
        if g.edited && g.defs@.len() > 0 {
            rest.push(defs_view(g.defs@))
        } else {
            rest
        }
    }
}

/// Collects the texture sets an export writes after the map.
pub fn edited_texture_sets(groups: &[TextureGroup]) -> (sets: Vec<Vec<TextureDef>>)
    ensures
        sets@.map_values(|s: Vec<TextureDef>| defs_view(s@)) == edited_sets(groups@),
{
    let mut sets: Vec<Vec<TextureDef>> = Vec::new();
    let mut i: usize = 0;
    while i < groups.len()
        invariant
            i <= groups@.len(),
            sets@.map_values(|s: Vec<TextureDef>| defs_view(s@)) == edited_sets(groups@.take(i as int)),
        decreases groups@.len() - i,
    {
        let ghost before = sets@;
        assert(groups@.take(i as int + 1).drop_last() == groups@.take(i as int));
        let g = &groups[i];
        if g.edited && g.defs.len() > 0 {
            let c = clone_defs(&g.defs);
            sets.push(c);
            assert(sets@.map_values(|s: Vec<TextureDef>| defs_view(s@)) == before.map_values(
                |s: Vec<TextureDef>| defs_view(s@),
            ).push(defs_view(g.defs@)));
        }
        i = i + 1;
    }
    assert(groups@.take(groups@.len() as int) == groups@);
    sets
}

} // verus!
