use frontpress_local::editor::{
    available_editors, editor_candidates, editor_command, editor_launch, launch_failure_message, opens_new_window,
    windows_install_paths,
};
use frontpress_local::errors::CommandError;
use frontpress_local::php::Platform;

#[test]
fn editor_command_maps_display_names() {
    assert_eq!(editor_command("Visual Studio Code", Platform::Linux), "code");
    assert_eq!(editor_command("GNOME Text Editor", Platform::Linux), "gnome-text-editor");
    assert_eq!(editor_command("GNOME Text Editor", Platform::Windows), "GNOME Text Editor");
    assert_eq!(editor_command("Notepad++", Platform::Windows), "notepad++");
    assert_eq!(editor_command("Notepad++", Platform::Linux), "Notepad++");
    assert_eq!(editor_command("nvim-qt", Platform::Linux), "nvim-qt");
}

#[test]
fn new_window_for_vscode_likes() {
    assert!(opens_new_window("code"));
    assert!(opens_new_window("code-insiders"));
    assert!(!opens_new_window("subl"));
}

#[test]
fn launch_needs_an_editor() {
    assert_eq!(editor_launch("  ", Platform::Linux).unwrap_err(), CommandError::NoEditorChosen);
    let l = editor_launch("Cursor", Platform::Linux).unwrap();
    assert_eq!(l.command, "cursor");
    assert!(l.new_window);
    let l = editor_launch("Kate", Platform::Linux).unwrap();
    assert_eq!(l.command, "kate");
    assert!(!l.new_window);
    assert_eq!(
        launch_failure_message("Kate", "kate", "not found"),
        "Couldn't launch “Kate” (kate): not found. Check the command in Settings → Editor."
    );
}

#[test]
fn candidates_and_filter() {
    let linux = editor_candidates(Platform::Linux);
    assert_eq!(linux.len(), 10);
    assert_eq!(linux[0].name, "Visual Studio Code");
    assert_eq!(linux[0].probes, vec!["code".to_string()]);
    let win = editor_candidates(Platform::Windows);
    assert_eq!(win.len(), 8);
    assert_eq!(win[5].name, "Notepad++");
    assert_eq!(win[5].probes, vec!["notepad++".to_string(), "notepad++.exe".to_string()]);
    assert!(editor_candidates(Platform::Other).is_empty());
    let mut found = vec![false; linux.len()];
    found[1] = true;
    found[8] = true;
    assert_eq!(available_editors(&linux, &found), vec!["Cursor".to_string(), "Kate".to_string()]);
}

#[test]
fn windows_paths() {
    assert_eq!(
        windows_install_paths("Notepad++", "C:\\PF", "C:\\PF86", "C:\\L"),
        vec!["C:\\PF\\Notepad++\\notepad++.exe".to_string(), "C:\\PF86\\Notepad++\\notepad++.exe".to_string()]
    );
    assert_eq!(windows_install_paths("Cursor", "C:\\PF", "C:\\PF86", "C:\\L"), vec!["C:\\L\\Cursor\\Cursor.exe".to_string()]);
    assert!(windows_install_paths("Zed", "a", "b", "c").is_empty());
}

#[test]
fn offered_editors_launch_their_probe() {
    for platform in [Platform::Linux, Platform::Windows] {
        let candidates = editor_candidates(platform);
        let found = vec![true; candidates.len()];
        let names = available_editors(&candidates, &found);
        assert_eq!(names.len(), candidates.len());
        for (name, c) in names.iter().zip(candidates.iter()) {
            assert_eq!(editor_command(name, platform), c.probes[0]);
            if platform == Platform::Linux {
                assert_eq!(c.probes.len(), 1);
            }
        }
    }
    let linux = editor_candidates(Platform::Linux);
    let found: Vec<bool> = linux.iter().map(|c| c.name == "Sublime Text" || c.name == "VSCodium").collect();
    let names = available_editors(&linux, &found);
    assert_eq!(names, vec!["VSCodium".to_string(), "Sublime Text".to_string()]);
    let cmds: Vec<String> = names.iter().map(|n| editor_command(n, Platform::Linux)).collect();
    assert_eq!(cmds, vec!["codium".to_string(), "subl".to_string()]);
}
