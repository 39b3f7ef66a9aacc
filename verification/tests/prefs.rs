use doomed_editor::prefs::{
    push_recent_project, resolve_dark, PopupWindow, PopupWindows, SectorGradient, ThemeMode,
    RECENT_PROJECTS_MAX,
};

#[test]
fn resolve_dark_follows_mode_then_os() {
    assert!(!resolve_dark(ThemeMode::default(), false));
    assert!(resolve_dark(ThemeMode::default(), true));
    assert!(!resolve_dark(ThemeMode::Light, true));
    assert!(resolve_dark(ThemeMode::Dark, false));
}

#[test]
fn recent_projects_dedup_front_and_cap() {
    let mut recent: Vec<String> = Vec::new();
    for i in 0..(RECENT_PROJECTS_MAX + 3) {
        push_recent_project(&mut recent, &format!("/p{i}.dpr"));
    }
    assert_eq!(recent.len(), RECENT_PROJECTS_MAX);
    assert_eq!(recent[0], "/p10.dpr", "most recent first");
    push_recent_project(&mut recent, "/p5.dpr");
    assert_eq!(recent[0], "/p5.dpr");
    assert_eq!(recent.iter().filter(|p| *p == "/p5.dpr").count(), 1, "no duplicates");
}

#[test]
fn recent_projects_keep_order_of_the_rest() {
    let mut recent = vec!["/a".to_owned(), "/b".to_owned(), "/c".to_owned()];
    push_recent_project(&mut recent, "/b");
    assert_eq!(recent, vec!["/b".to_owned(), "/a".to_owned(), "/c".to_owned()]);
    push_recent_project(&mut recent, "/d");
    assert_eq!(
        recent,
        vec!["/d".to_owned(), "/b".to_owned(), "/a".to_owned(), "/c".to_owned()]
    );
}

#[test]
fn popup_geometry_reads_back_what_was_set() {
    let mut windows: PopupWindows<(i32, i32)> = PopupWindows::default();
    windows.set(PopupWindow::Browser, (-40, 12));
    assert_eq!(windows.get(PopupWindow::Browser), (-40, 12));
    assert_eq!(windows.get(PopupWindow::Remap), (0, 0), "other windows untouched");
    windows.set(PopupWindow::Browser, (5, 6));
    assert_eq!(windows.get(PopupWindow::Browser), (5, 6));
    windows.set(PopupWindow::Audit, (1, 2));
    assert_eq!(windows.audit, (1, 2));
    assert_eq!(windows.browser, (5, 6));
}

#[test]
fn gradient_labels() {
    assert_eq!(SectorGradient::Turbo.label(), "Turbo");
    assert_eq!(SectorGradient::Cividis.label(), "Cividis");
}
