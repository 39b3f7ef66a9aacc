use doomed_editor::assets::TextureGroup;
use doomed_editor::compose::TextureDef;
use doomed_editor::jobs::{edited_texture_sets, JobLock, JobKind, JobStatus};

fn def(name: &str) -> TextureDef {
    TextureDef { name: name.to_owned(), width: 64, height: 128, patches: Vec::new() }
}

fn group(lump: &str, defs: Vec<TextureDef>, edited: bool) -> TextureGroup {
    TextureGroup { wad_name: "doom2.wad".to_owned(), lump: lump.to_owned(), defs, edited }
}

#[test]
fn second_job_is_refused_until_the_first_finishes() {
    let mut lock = JobLock::default();
    assert!(lock.try_start());
    assert!(!lock.try_start(), "a job is already running");
    assert!(lock.busy);
    let end = lock.finish(JobKind::Export, true);
    assert_eq!(end.status, JobStatus::Exported);
    assert!(end.play_build_anim);
    assert!(!lock.busy);
    assert!(lock.try_start());
}

#[test]
fn finished_jobs_report_their_status() {
    let mut lock = JobLock { busy: true };
    let failed = lock.finish(JobKind::Build, false);
    assert_eq!(failed.status.label(), "build failed");
    assert!(!failed.play_build_anim);
    assert_eq!(lock.finish(JobKind::Build, true).status.label(), "BSP built");
    assert!(lock.finish(JobKind::Build, true).play_build_anim);
    let launched = lock.finish(JobKind::Launch, true);
    assert_eq!(launched.status.label(), "launched");
    assert!(!launched.play_build_anim);
    assert_eq!(lock.finish(JobKind::PngExport, false).status.label(), "png export failed");
    assert_eq!(lock.finish(JobKind::Export, false).status.label(), "export failed");
    assert_eq!(JobKind::Export.running_label(), "exporting…");
    assert_eq!(JobKind::Build.running_label(), "building BSP…");
    assert_eq!(JobKind::Launch.running_label(), "launching…");
    assert_eq!(JobKind::PngExport.running_label(), "exporting png…");
}

#[test]
fn only_edited_nonempty_groups_are_written() {
    let groups = vec![
        group("TEXTURE1", vec![def("A"), def("B")], true),
        group("TEXTURE2", vec![def("C")], false),
        group("TEXTURE1", Vec::new(), true),
        group("TEXTURE2", vec![def("D")], true),
    ];
    let sets = edited_texture_sets(&groups);
    assert_eq!(sets.len(), 2);
    assert_eq!(sets[0], vec![def("A"), def("B")]);
    assert_eq!(sets[1], vec![def("D")]);
    assert!(edited_texture_sets(&[]).is_empty());
}
