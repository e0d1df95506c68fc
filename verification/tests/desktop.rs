use tagtiger::colors::{accent_colors, windows_colors, Rgb};
use tagtiger::installer::{install_message, plan_install, InstallEnd, InstallStep};
use tagtiger::paths::{
    arg_to_path, ext_lower, handle_drop, is_image_path, is_movie_path, percent_decode,
    percent_decode_bytes, uri_or_path, Dropped, DroppedFile, Inbox, OpenItem,
};
use tagtiger::winassoc::{exe_command, register, unregister};

#[test]
fn percent_decode_basic() {
    assert_eq!(percent_decode("a%20b"), "a b");
    assert_eq!(percent_decode("plain"), "plain");
    assert_eq!(percent_decode("100%done"), "100%done");
    assert_eq!(percent_decode("%2Fetc%2Ffile"), "/etc/file");
}

#[test]
fn percent_decode_edges() {
    assert_eq!(percent_decode("%C3%A4"), "ä");
    assert_eq!(percent_decode("x%4"), "x%4");
    assert_eq!(percent_decode("x%41"), "xA");
    assert_eq!(percent_decode("%ff"), "\u{fffd}");
    assert_eq!(percent_decode_bytes(b"%00%fF"), vec![0, 255]);
}

#[test]
fn non_movie_args_rejected() {
    assert!(!is_movie_path("--some-flag"));
    assert!(!is_movie_path("notes.txt"));
    assert_eq!(arg_to_path("/tmp/notes.txt"), "/tmp/notes.txt");
}

#[test]
fn movie_arg_and_uri_resolve_to_the_same_path() {
    assert_eq!(arg_to_path("/tmp/tag tiger test.mp4"), "/tmp/tag tiger test.mp4");
    assert_eq!(arg_to_path("file:///tmp/tag%20tiger%20test.mp4"), "/tmp/tag tiger test.mp4");
    assert_eq!(arg_to_path("file://host/tmp/a.mp4"), "/tmp/a.mp4");
    assert!(is_movie_path("tag tiger test.MP4"));
    assert!(is_movie_path("a.m4v"));
}

#[test]
fn texts_may_be_paths() {
    assert_eq!(uri_or_path("file:///a%20b").as_deref(), Some("/a b"));
    assert_eq!(uri_or_path("/a%20b").as_deref(), Some("/a%20b"));
    assert_eq!(uri_or_path("a"), None);
}

#[test]
fn pictures_are_known_by_extension() {
    for name in ["a.png", "a.JPG", "a.jpeg", "a.gif", "a.bmp", "a.webp"] {
        assert!(is_image_path(name), "{name}");
    }
    assert!(!is_image_path("a.tiff"));
    assert_eq!(ext_lower("A.MoV").as_deref(), Some("mov"));
    assert_eq!(ext_lower("none"), None);
}

fn file(name: &str) -> DroppedFile {
    DroppedFile { path: format!("/d/{name}"), name: name.to_string() }
}

#[test]
fn movies_go_before_pictures() {
    let files = vec![file("a.png"), file("b.mp4"), file("c.m4v")];
    assert!(matches!(handle_drop(&files), Dropped::Movie(p) if p == "/d/b.mp4"));
    let files = vec![file("a.png"), file("x.txt"), file("b.jpg")];
    match handle_drop(&files) {
        Dropped::Images(l) => assert_eq!(l, vec!["/d/a.png", "/d/b.jpg"]),
        other => panic!("unexpected: {other:?}"),
    }
    assert!(matches!(handle_drop(&vec![file("x.txt")]), Dropped::Nothing));
}

#[test]
fn inbox_hands_everything_over_once() {
    let mut inbox = Inbox::empty();
    inbox.open_documents(&vec![
        OpenItem::Path("/a.mp4".into()),
        OpenItem::Text("file:///b%20c.mp4".into()),
        OpenItem::Text("nowhere".into()),
        OpenItem::Unnamed,
    ]);
    assert!(inbox.drop_files(&vec![file("d.mp4")]));
    assert!(inbox.drop_files(&vec![file("e.png")]));
    assert!(!inbox.drop_files(&vec![file("f.txt")]));
    assert_eq!(inbox.take_pending(), vec!["/a.mp4", "/b c.mp4", "/d/d.mp4"]);
    assert!(inbox.take_pending().is_empty());
    assert_eq!(inbox.take_pending_images(), vec!["/d/e.png"]);
    assert!(inbox.take_pending_images().is_empty());
    assert!(!inbox.take_about_requested());
    inbox.request_about();
    assert!(inbox.take_about_requested());
    assert!(!inbox.take_about_requested());
}

#[test]
fn windows_is_told_what_to_open() {
    let commands = register("C:\\T.exe");
    assert_eq!(commands.len(), 5);
    assert_eq!(
        commands[0],
        vec!["add", "HKCU\\Software\\Classes\\TagTiger.Movie", "/ve", "/d", "MPEG-4 Movie", "/f"]
    );
    assert_eq!(commands[1][4], "\"C:\\T.exe\" \"%1\"");
    assert_eq!(commands[2][4], "C:\\T.exe,0");
    assert_eq!(commands[3][1], "HKCU\\Software\\Classes\\.mp4\\OpenWithProgids");
    assert_eq!(commands[4][6], "/f");
    assert_eq!(exe_command("x"), "\"x\" \"%1\"");
    let removal = unregister();
    assert_eq!(removal.len(), 3);
    assert_eq!(removal[0], vec!["delete", "HKCU\\Software\\Classes\\TagTiger.Movie", "/f"]);
    assert_eq!(
        removal[2],
        vec![
            "delete",
            "HKCU\\Software\\Classes\\.m4v\\OpenWithProgids",
            "/v",
            "TagTiger.Movie",
            "/f"
        ]
    );
}

#[test]
fn windows_colors_are_decoded() {
    let c = windows_colors(0x00112233, 0x00ffffff, Some(0xff445566));
    assert_eq!(c.highlight, Rgb { r: 0x33, g: 0x22, b: 0x11 });
    assert_eq!(c.highlight_text, Rgb { r: 255, g: 255, b: 255 });
    assert_eq!(c.accent, Rgb { r: 0x44, g: 0x55, b: 0x66 });
    assert_eq!(windows_colors(0x00112233, 0, None).accent, Rgb { r: 0x33, g: 0x22, b: 0x11 });
    let a = Rgb { r: 1, g: 2, b: 3 };
    assert_eq!(accent_colors(a).highlight, a);
    assert_eq!(accent_colors(a).accent, a);
    assert_eq!(accent_colors(a).highlight_text, Rgb { r: 255, g: 255, b: 255 });
}

#[test]
fn text_can_be_read_on_every_color() {
    for r in 0..=255u8 {
        for g in 0..=255u8 {
            for b in 0..=255u8 {
                let luma = 0.299 * r as f32 + 0.587 * g as f32 + 0.114 * b as f32;
                let v = if luma > 140.0 { 0 } else { 255 };
                assert_eq!(Rgb { r, g, b }.contrast_text(), Rgb { r: v, g: v, b: v });
            }
        }
    }
}

#[test]
fn tool_is_linked_or_scripted() {
    assert!(matches!(plan_install("/A.app/cli", true), InstallStep::Link));
    match plan_install("/it's \"A\"/cli", false) {
        InstallStep::Script(s) => assert_eq!(
            s,
            "do shell script \"mkdir -p /usr/local/bin && ln -sf '/it'\\\\''s \\\"A\\\"/cli' \
             '/usr/local/bin/tagtiger'\" with administrator privileges"
        ),
        InstallStep::Link => panic!("expected a script"),
    }
}

#[test]
fn installation_says_how_it_ended() {
    assert_eq!(
        install_message(&InstallEnd::Installed),
        "Installed CLI: run `tagtiger --help`. (/usr/local/bin/tagtiger)"
    );
    assert_eq!(
        install_message(&InstallEnd::ScriptFailed("error: User canceled. (-128)".into())),
        "CLI install cancelled."
    );
    assert_eq!(
        install_message(&InstallEnd::ScriptFailed(" no rights \n".into())),
        "Failed to install CLI: no rights"
    );
    assert_eq!(install_message(&InstallEnd::NotRun("e".into())), "Failed to run installer: e");
    assert_eq!(install_message(&InstallEnd::LinkFailed("e".into())), "Failed to install CLI: e");
    assert_eq!(
        install_message(&InstallEnd::NoProgram("e".into())),
        "Couldn't locate the app executable: e"
    );
    assert!(install_message(&InstallEnd::NoTool).contains("tagtiger-cli"));
}
