//! The favorite-editor feature: which editors are probed for, which command
//! a display name launches, and how a site folder is opened in it.

use vstd::prelude::*;
use crate::text::{views, str_eq, trim, trim_str, concat};
use crate::php::Platform;
use crate::errors::CommandError;

verus! {

/// The command a display name (as `list_editors` offers it) launches;
/// anything else is taken to be a command already.
pub open spec fn editor_command_spec(editor: Seq<char>, platform: Platform) -> Seq<char> {
    if editor == "Visual Studio Code"@ {
        "code"@
    } else if editor == "Cursor"@ {
        "cursor"@
    } else if editor == "VSCodium"@ {
        "codium"@
    } else if editor == "Sublime Text"@ {
        "subl"@
    } else if editor == "PhpStorm"@ {
        "phpstorm"@
    } else if editor == "WebStorm"@ {
        "webstorm"@
    } else if editor == "Zed"@ {
        "zed"@
    } else if platform == Platform::Windows && editor == "Notepad++"@ {
        "notepad++"@
    } else if platform != Platform::Windows && editor == "GNOME Text Editor"@ {
        "gnome-text-editor"@
    } else if platform != Platform::Windows && editor == "Kate"@ {
        "kate"@
    } else if platform != Platform::Windows && editor == "Gedit"@ {
        "gedit"@
    } else {
        editor
    }
}

/// Resolve a display name (as returned by `list_editors`) to the actual
/// command to spawn. Free-typed values pass through untouched.
pub fn editor_command(editor: &str, platform: Platform) -> (r: String)
    ensures
        r@ == editor_command_spec(editor@, platform),
{
    let windows = match platform {
        Platform::Windows => true,
        _ => false,
    };
    if str_eq(editor, "Visual Studio Code") {
        String::from_str("code")
    } else if str_eq(editor, "Cursor") {
        String::from_str("cursor")
    } else if str_eq(editor, "VSCodium") {
        String::from_str("codium")
    } else if str_eq(editor, "Sublime Text") {
        String::from_str("subl")
    } else if str_eq(editor, "PhpStorm") {
        String::from_str("phpstorm")
    } else if str_eq(editor, "WebStorm") {
        String::from_str("webstorm")
    } else if str_eq(editor, "Zed") {
        String::from_str("zed")
    } else if windows && str_eq(editor, "Notepad++") {
        String::from_str("notepad++")
    } else if !windows && str_eq(editor, "GNOME Text Editor") {
        String::from_str("gnome-text-editor")
    } else if !windows && str_eq(editor, "Kate") {
        String::from_str("kate")
    } else if !windows && str_eq(editor, "Gedit") {
        String::from_str("gedit")
    } else {
        String::from_str(editor)
    }
}

/// VS Code-like commands, which are given `--new-window`.
pub open spec fn wants_new_window(cmd: Seq<char>) -> bool {
    ||| cmd == "code"@
    ||| cmd == "code.cmd"@
    ||| cmd == "cursor"@
    ||| cmd == "cursor.cmd"@
    ||| cmd == "codium"@
    ||| cmd == "codium.cmd"@
    ||| cmd == "code-insiders"@
}

/// Whether the command gets `--new-window` so an existing window is not
/// taken over.
pub fn opens_new_window(cmd: &str) -> (r: bool)
    ensures
        r == wants_new_window(cmd@),
        r <==> (cmd@ == "code"@ || cmd@ == "code.cmd"@ || cmd@ == "cursor"@ || cmd@ == "cursor.cmd"@ || cmd@
            == "codium"@ || cmd@ == "codium.cmd"@ || cmd@ == "code-insiders"@),
{
    str_eq(cmd, "code") || str_eq(cmd, "code.cmd") || str_eq(cmd, "cursor") || str_eq(cmd, "cursor.cmd")
        || str_eq(cmd, "codium") || str_eq(cmd, "codium.cmd") || str_eq(cmd, "code-insiders")
}

/// What telling the editor commands apart takes: their lengths and first
/// letters.
proof fn lemma_command_names()
    ensures
        "code"@.len() == 4 && "code"@[0] == 'c',
        "code.cmd"@.len() == 8 && "code.cmd"@[0] == 'c',
        "cursor"@.len() == 6 && "cursor"@[0] == 'c',
        "cursor.cmd"@.len() == 10 && "cursor.cmd"@[0] == 'c',
        "codium"@.len() == 6 && "codium"@[0] == 'c',
        "codium.cmd"@.len() == 10 && "codium.cmd"@[0] == 'c',
        "code-insiders"@.len() == 13 && "code-insiders"@[0] == 'c',
        "subl"@.len() == 4 && "subl"@[0] == 's',
        "phpstorm"@.len() == 8 && "phpstorm"@[0] == 'p',
        "webstorm"@.len() == 8 && "webstorm"@[0] == 'w',
        "zed"@.len() == 3 && "zed"@[0] == 'z',
        "notepad++"@.len() == 9 && "notepad++"@[0] == 'n',
        "gnome-text-editor"@.len() == 17 && "gnome-text-editor"@[0] == 'g',
        "kate"@.len() == 4 && "kate"@[0] == 'k',
        "gedit"@.len() == 5 && "gedit"@[0] == 'g',
{
    reveal_strlit("code");
    reveal_strlit("code.cmd");
    reveal_strlit("cursor");
    reveal_strlit("cursor.cmd");
    reveal_strlit("codium");
    reveal_strlit("codium.cmd");
    reveal_strlit("code-insiders");
    reveal_strlit("subl");
    reveal_strlit("phpstorm");
    reveal_strlit("webstorm");
    reveal_strlit("zed");
    reveal_strlit("notepad++");
    reveal_strlit("gnome-text-editor");
    reveal_strlit("kate");
    reveal_strlit("gedit");
}

/// The VS Code-like editors the picker offers (Visual Studio Code, Cursor,
/// VSCodium) open in a new window; the other editors it offers do not.
pub proof fn lemma_vscode_likes_open_new_window(platform: Platform)
    ensures
        wants_new_window(editor_command_spec("Visual Studio Code"@, platform)),
        wants_new_window(editor_command_spec("Cursor"@, platform)),
        wants_new_window(editor_command_spec("VSCodium"@, platform)),
        !wants_new_window(editor_command_spec("Sublime Text"@, platform)),
        !wants_new_window(editor_command_spec("PhpStorm"@, platform)),
        !wants_new_window(editor_command_spec("WebStorm"@, platform)),
        !wants_new_window(editor_command_spec("Zed"@, platform)),
        !wants_new_window(editor_command_spec("Notepad++"@, platform)),
        !wants_new_window(editor_command_spec("GNOME Text Editor"@, platform)),
        !wants_new_window(editor_command_spec("Kate"@, platform)),
        !wants_new_window(editor_command_spec("Gedit"@, platform)),
{
    lemma_display_names();
    lemma_command_names();
}

/// How to launch the editor.
#[derive(Debug, Clone, PartialEq, Eq)]
pub struct EditorLaunch {
    pub command: String,
    pub new_window: bool,
}

/// How to open a site folder in the configured editor; refused when no
/// editor is configured (the setting is blank).
pub fn editor_launch(editor: &str, platform: Platform) -> (r: Result<EditorLaunch, CommandError>)
    ensures
        trim(editor@).len() == 0 ==> r matches Err(CommandError::NoEditorChosen),
        trim(editor@).len() > 0 ==> (r matches Ok(l) && l.command@ == editor_command_spec(editor@, platform)
            && l.new_window == wants_new_window(l.command@)),
        editor@ == "Visual Studio Code"@ || editor@ == "Cursor"@ || editor@ == "VSCodium"@ ==> (r matches Ok(l)
            && l.new_window),
{
    proof {
        lemma_vscode_likes_open_new_window(platform);
        reveal_strlit("Visual Studio Code");
        reveal_strlit("Cursor");
        reveal_strlit("VSCodium");
    }
    let t = trim_str(editor);
    if t.as_str().is_empty() {
        return Err(CommandError::NoEditorChosen);
    }
    let command = editor_command(editor, platform);
    let new_window = opens_new_window(command.as_str());
    Ok(EditorLaunch { command, new_window })
}

/// The message shown when the editor cannot be started.
pub fn launch_failure_message(editor: &str, command: &str, error: &str) -> (r: String)
    ensures
        r@ == "Couldn't launch \u{201c}"@ + editor@ + "\u{201d} ("@ + command@ + "): "@ + error@
            + ". Check the command in Settings \u{2192} Editor."@,
{
    let a = concat("Couldn't launch \u{201c}", editor);
    let b = concat(a.as_str(), "\u{201d} (");
    let c = concat(b.as_str(), command);
    let d = concat(c.as_str(), "): ");
    let e = concat(d.as_str(), error);
    concat(e.as_str(), ". Check the command in Settings \u{2192} Editor.")
}

/// An editor that may be installed, with the commands that reveal it.
#[derive(Debug, Clone, PartialEq, Eq)]
pub struct EditorCandidate {
    /// The name shown in the picker.
    pub name: String,
    /// Commands looked up on PATH to tell whether it is installed.
    pub probes: Vec<String>,
}

/// (display name, probe commands) for every editor looked for.
pub open spec fn candidates_spec(platform: Platform) -> Seq<(Seq<char>, Seq<Seq<char>>)> {
    match platform {
        Platform::Linux => seq![
            ("Visual Studio Code"@, seq!["code"@]),
            ("Cursor"@, seq!["cursor"@]),
            ("VSCodium"@, seq!["codium"@]),
            ("Sublime Text"@, seq!["subl"@]),
            ("PhpStorm"@, seq!["phpstorm"@]),
            ("WebStorm"@, seq!["webstorm"@]),
            ("Zed"@, seq!["zed"@]),
            ("GNOME Text Editor"@, seq!["gnome-text-editor"@]),
            ("Kate"@, seq!["kate"@]),
            ("Gedit"@, seq!["gedit"@]),
        ],
        Platform::Windows => seq![
            ("Visual Studio Code"@, seq!["code"@, "code.cmd"@]),
            ("Cursor"@, seq!["cursor"@, "cursor.cmd"@]),
            ("Sublime Text"@, seq!["subl"@, "sublime_text"@]),
            ("PhpStorm"@, seq!["phpstorm"@, "phpstorm64"@]),
            ("WebStorm"@, seq!["webstorm"@, "webstorm64"@]),
            ("Notepad++"@, seq!["notepad++"@, "notepad++.exe"@]),
            ("VSCodium"@, seq!["codium"@, "codium.cmd"@]),
            ("Zed"@, seq!["zed"@]),
        ],
        Platform::Other => Seq::empty(),
    }
}

/// A candidate as (display name, probe commands).
pub open spec fn candidate_spec(c: EditorCandidate) -> (Seq<char>, Seq<Seq<char>>) {
    (c.name@, views(c.probes@))
}

fn candidate(name: &str, probe: &str) -> (r: EditorCandidate)
    ensures
        r.name@ == name@,
        views(r.probes@) == seq![probe@],
{
    let mut v: Vec<String> = Vec::new();
    v.push(String::from_str(probe));
    assert(views(v@) =~= seq![probe@]);
    EditorCandidate { name: String::from_str(name), probes: v }
}

fn candidate2(name: &str, probe: &str, alt: &str) -> (r: EditorCandidate)
    ensures
        r.name@ == name@,
        views(r.probes@) == seq![probe@, alt@],
{
    let mut v: Vec<String> = Vec::new();
    v.push(String::from_str(probe));
    v.push(String::from_str(alt));
    assert(views(v@) =~= seq![probe@, alt@]);
    EditorCandidate { name: String::from_str(name), probes: v }
}

/// Editors looked for on this platform, in the order the picker lists them.
pub fn editor_candidates(platform: Platform) -> (r: Vec<EditorCandidate>)
    ensures
        r@.map_values(|c: EditorCandidate| candidate_spec(c)) == candidates_spec(platform),
{
    let mut out: Vec<EditorCandidate> = Vec::new();
    match platform {
        Platform::Linux => {
            out.push(candidate("Visual Studio Code", "code"));
            out.push(candidate("Cursor", "cursor"));
            out.push(candidate("VSCodium", "codium"));
            out.push(candidate("Sublime Text", "subl"));
            out.push(candidate("PhpStorm", "phpstorm"));
            out.push(candidate("WebStorm", "webstorm"));
            out.push(candidate("Zed", "zed"));
            out.push(candidate("GNOME Text Editor", "gnome-text-editor"));
            out.push(candidate("Kate", "kate"));
            out.push(candidate("Gedit", "gedit"));
        },
        Platform::Windows => {
            out.push(candidate2("Visual Studio Code", "code", "code.cmd"));
            out.push(candidate2("Cursor", "cursor", "cursor.cmd"));
            out.push(candidate2("Sublime Text", "subl", "sublime_text"));
            out.push(candidate2("PhpStorm", "phpstorm", "phpstorm64"));
            out.push(candidate2("WebStorm", "webstorm", "webstorm64"));
            out.push(candidate2("Notepad++", "notepad++", "notepad++.exe"));
            out.push(candidate2("VSCodium", "codium", "codium.cmd"));
            out.push(candidate("Zed", "zed"));
        },
        Platform::Other => {},
    }
    assert(out@.map_values(|c: EditorCandidate| candidate_spec(c)) =~= candidates_spec(platform));
    out
}

/// The default install locations checked on Windows for an editor, given
/// the values of `%ProgramFiles%`, `%ProgramFiles(x86)%` and `%LOCALAPPDATA%`.
pub open spec fn install_paths_spec(display: Seq<char>, pf: Seq<char>, pf86: Seq<char>, local: Seq<char>) -> Seq<Seq<char>> {
    if display == "Visual Studio Code"@ {
        seq![pf + "\\Microsoft VS Code\\Code.exe"@]
    } else if display == "Cursor"@ {
        seq![local + "\\Cursor\\Cursor.exe"@]
    } else if display == "Sublime Text"@ {
        seq![pf + "\\Sublime Text\\sublime_text.exe"@]
    } else if display == "PhpStorm"@ {
        seq![pf + "\\JetBrains\\PhpStorm\\bin\\phpstorm64.exe"@]
    } else if display == "Notepad++"@ {
        seq![pf + "\\Notepad++\\notepad++.exe"@, pf86 + "\\Notepad++\\notepad++.exe"@]
    } else {
        Seq::empty()
    }
}

/// The default install locations checked on Windows when no probe command
/// is on PATH (see `install_paths_spec`).
pub fn windows_install_paths(display: &str, program_files: &str, program_files_x86: &str, local_app_data: &str) -> (r: Vec<String>)
    ensures
        views(r@) == install_paths_spec(display@, program_files@, program_files_x86@, local_app_data@),
{
    let mut out: Vec<String> = Vec::new();
    if str_eq(display, "Visual Studio Code") {
        out.push(concat(program_files, "\\Microsoft VS Code\\Code.exe"));
    } else if str_eq(display, "Cursor") {
        out.push(concat(local_app_data, "\\Cursor\\Cursor.exe"));
    } else if str_eq(display, "Sublime Text") {
        out.push(concat(program_files, "\\Sublime Text\\sublime_text.exe"));
    } else if str_eq(display, "PhpStorm") {
        out.push(concat(program_files, "\\JetBrains\\PhpStorm\\bin\\phpstorm64.exe"));
    } else if str_eq(display, "Notepad++") {
        out.push(concat(program_files, "\\Notepad++\\notepad++.exe"));
        out.push(concat(program_files_x86, "\\Notepad++\\notepad++.exe"));
    }
    proof {
        if out@.len() == 1 {
            assert(views(out@) =~= seq![out@[0]@]);
        } else if out@.len() == 2 {
            assert(views(out@) =~= seq![out@[0]@, out@[1]@]);
        } else {
            assert(views(out@) =~= Seq::<Seq<char>>::empty());
        }
    }
    out
}

/// The names of the candidates found installed (`found[i]` tells whether
/// candidate `i` is), in order.
pub fn available_editors(candidates: &[EditorCandidate], found: &[bool]) -> (r: Vec<String>)
    requires
        found@.len() == candidates@.len(),
    ensures
        views(r@) == filtered_names(candidates@, found@),
{
    let mut out: Vec<String> = Vec::new();
    let mut i: usize = 0;
    while i < candidates.len()
        invariant
            i <= candidates@.len(),
            found@.len() == candidates@.len(),
            views(out@) == filtered_names(candidates@.take(i as int), found@.take(i as int)),
        decreases candidates@.len() - i,
    {
        assert(candidates@.take(i + 1).drop_last() =~= candidates@.take(i as int));
        assert(found@.take(i + 1).drop_last() =~= found@.take(i as int));
        if found[i] {
            let ghost before = out@;
            out.push(candidates[i].name.clone());
            assert(views(out@) =~= views(before).push(candidates@[i as int].name@));
        }
        i += 1;
    }
    assert(candidates@.take(candidates@.len() as int) =~= candidates@);
    assert(found@.take(found@.len() as int) =~= found@);
    out
}

/// What telling the display names apart takes: their lengths, and the
/// first letters of those of equal length.
proof fn lemma_display_names()
    ensures
        "Visual Studio Code"@.len() == 18,
        "Cursor"@.len() == 6,
        "VSCodium"@.len() == 8,
        "Sublime Text"@.len() == 12,
        "PhpStorm"@.len() == 8,
        "WebStorm"@.len() == 8,
        "Zed"@.len() == 3,
        "Notepad++"@.len() == 9,
        "GNOME Text Editor"@.len() == 17,
        "Kate"@.len() == 4,
        "Gedit"@.len() == 5,
        "VSCodium"@[0] == 'V',
        "PhpStorm"@[0] == 'P',
        "WebStorm"@[0] == 'W',
        "Kate"@[0] == 'K',
{
    reveal_strlit("Visual Studio Code");
    reveal_strlit("Cursor");
    reveal_strlit("VSCodium");
    reveal_strlit("Sublime Text");
    reveal_strlit("PhpStorm");
    reveal_strlit("WebStorm");
    reveal_strlit("Zed");
    reveal_strlit("Notepad++");
    reveal_strlit("GNOME Text Editor");
    reveal_strlit("Kate");
    reveal_strlit("Gedit");
}

/// Each editor looked for launches, by its display name, the first command
/// probed for it; on Linux that is the one command probed.
proof fn lemma_candidate_commands(platform: Platform)
    ensures
        forall|i: int|
            0 <= i < candidates_spec(platform).len() ==> {
                let c = #[trigger] candidates_spec(platform)[i];
                &&& c.1.len() >= 1
                &&& editor_command_spec(c.0, platform) == c.1[0]
                &&& platform == Platform::Linux ==> c.1.len() == 1
            },
{
    lemma_display_names();
    match platform {
        Platform::Linux => {
            assert(editor_command_spec("Visual Studio Code"@, platform) == "code"@);
            assert(editor_command_spec("Cursor"@, platform) == "cursor"@);
            assert(editor_command_spec("VSCodium"@, platform) == "codium"@);
            assert(editor_command_spec("Sublime Text"@, platform) == "subl"@);
            assert(editor_command_spec("PhpStorm"@, platform) == "phpstorm"@);
            assert(editor_command_spec("WebStorm"@, platform) == "webstorm"@);
            assert(editor_command_spec("Zed"@, platform) == "zed"@);
            assert(editor_command_spec("GNOME Text Editor"@, platform) == "gnome-text-editor"@);
            assert(editor_command_spec("Kate"@, platform) == "kate"@);
            assert(editor_command_spec("Gedit"@, platform) == "gedit"@);
        },
        Platform::Windows => {
            assert(editor_command_spec("Visual Studio Code"@, platform) == "code"@);
            assert(editor_command_spec("Cursor"@, platform) == "cursor"@);
            assert(editor_command_spec("Sublime Text"@, platform) == "subl"@);
            assert(editor_command_spec("PhpStorm"@, platform) == "phpstorm"@);
            assert(editor_command_spec("WebStorm"@, platform) == "webstorm"@);
            assert(editor_command_spec("Notepad++"@, platform) == "notepad++"@);
            assert(editor_command_spec("VSCodium"@, platform) == "codium"@);
            assert(editor_command_spec("Zed"@, platform) == "zed"@);
        },
        Platform::Other => {},
    }
}

proof fn lemma_filtered_names_source(c: Seq<EditorCandidate>, found: Seq<bool>, name: Seq<char>)
    requires
        found.len() == c.len(),
        filtered_names(c, found).contains(name),
    ensures
        exists|i: int| 0 <= i < c.len() && found[i] && #[trigger] c[i].name@ == name,
    decreases c.len(),
{
    let p = filtered_names(c.drop_last(), found.drop_last());
    if p.contains(name) {
        lemma_filtered_names_source(c.drop_last(), found.drop_last(), name);
        let i = choose|i: int| 0 <= i < c.len() - 1 && found.drop_last()[i] && #[trigger] c.drop_last()[i].name@ == name;
        assert(c[i] == c.drop_last()[i]);
    } else {
        assert(found.last() && c.last().name@ == name);
        assert(c[c.len() - 1].name@ == name);
    }
}

/// Every name the picker offers launches the command that was found for it:
/// among the editors looked for, the one with that name was found, and the
/// command its name resolves to is its first probe; on Linux, that is the
/// one command that was looked up on PATH.
pub proof fn lemma_offered_editor_launches_its_probe(
    platform: Platform,
    candidates: Seq<EditorCandidate>,
    found: Seq<bool>,
    name: Seq<char>,
)
    requires
        candidates.map_values(|c: EditorCandidate| candidate_spec(c)) == candidates_spec(platform),
        found.len() == candidates.len(),
        filtered_names(candidates, found).contains(name),
    ensures
        exists|i: int|
            0 <= i < candidates.len() && found[i] && #[trigger] candidates[i].name@ == name && views(
                candidates[i].probes@,
            )[0] == editor_command_spec(name, platform) && (platform == Platform::Linux ==> views(
                candidates[i].probes@,
            ) == seq![editor_command_spec(name, platform)]),
{
    lemma_filtered_names_source(candidates, found, name);
    let i = choose|i: int| 0 <= i < candidates.len() && found[i] && #[trigger] candidates[i].name@ == name;
    lemma_candidate_commands(platform);
    let c = candidates_spec(platform)[i];
    assert(candidate_spec(candidates[i]) == c);
    if platform == Platform::Linux {
        assert(views(candidates[i].probes@) =~= seq![editor_command_spec(name, platform)]);
    }
}

/// The names of the candidates whose flag is set, in order.
pub open spec fn filtered_names(c: Seq<EditorCandidate>, found: Seq<bool>) -> Seq<Seq<char>>
    decreases c.len(),
{
    if c.len() == 0 || found.len() == 0 {
        Seq::empty()
    } else {
        let p = filtered_names(c.drop_last(), found.drop_last());
        if found.last() { p.push(c.last().name@) } else { p }
    }
}

} // verus!
