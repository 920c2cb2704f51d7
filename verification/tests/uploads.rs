use pyscman::api::{create_task_as, Reply, ReplyBody};
use pyscman::store::TaskStore;
use pyscman::task::{CreateTaskRequest, ScheduleType};
use pyscman::upload::{sanitize, Disposition, Upload, UploadAction, UploadEvent};

fn tasks() -> TaskStore {
    let mut tasks = TaskStore::new();
    let req = CreateTaskRequest {
        name: String::new(),
        description: String::new(),
        script_content: String::new(),
        schedule: ScheduleType::Once,
    };
    create_task_as(&mut tasks, "t".to_string(), req);
    tasks
}

fn begun() -> Upload {
    match Upload::begin_by(&tasks(), &"t".to_string(), false) {
        Ok((upload, UploadAction::MakeDir(path))) => {
            assert_eq!(path, "data/scripts/t");
            upload
        },
        other => panic!("{:?}", other),
    }
}

fn text(reply: &Reply) -> (u16, String) {
    match &reply.body {
        ReplyBody::Text(text) => (reply.status.code(), text.clone()),
        other => panic!("{:?}", other),
    }
}

fn answer(action: UploadAction) -> (u16, String) {
    match action {
        UploadAction::Answer(reply) => text(&reply),
        other => panic!("{:?}", other),
    }
}

fn named(name: &str) -> UploadEvent {
    UploadEvent::Field(Disposition::Named(name.to_string()))
}

#[test]
fn an_unknown_task_takes_no_files() {
    match Upload::begin(&tasks(), &"x".to_string()) {
        Err(reply) => assert_eq!(text(&reply), (404, "Task not found".to_string())),
        other => panic!("{:?}", other),
    }
}

#[test]
fn files_are_written_piece_by_piece() {
    let mut upload = begun();
    assert!(matches!(upload.step(UploadEvent::DirReady), UploadAction::NextField));
    match upload.step(named("a/b.csv")) {
        UploadAction::CreateFile(path) => assert_eq!(path, "data/scripts/t/ab.csv"),
        other => panic!("{:?}", other),
    }
    assert!(matches!(upload.step(UploadEvent::Opened), UploadAction::NextChunk));
    assert!(matches!(upload.step(UploadEvent::Chunk), UploadAction::WriteChunk));
    assert!(matches!(upload.step(UploadEvent::ChunkWritten), UploadAction::NextChunk));
    assert!(matches!(upload.step(UploadEvent::FieldEnd), UploadAction::NextField));
    assert_eq!(answer(upload.step(UploadEvent::NoField)), (200, "File uploaded".to_string()));
}

#[test]
fn the_rules_of_this_machine_are_used() {
    let (mut upload, _) = match Upload::begin(&tasks(), &"t".to_string()) {
        Ok(begun) => begun,
        other => panic!("{:?}", other),
    };
    upload.step(UploadEvent::DirReady);
    match upload.step(named("con.")) {
        UploadAction::CreateFile(path) => {
            assert_eq!(path, format!("data/scripts/t/{}", sanitize_filename::sanitize("con.")));
        },
        other => panic!("{:?}", other),
    }
}

#[test]
fn each_failure_of_an_upload_has_its_answer() {
    let mut upload = begun();
    let reply = answer(upload.step(UploadEvent::DirFailed("e".to_string())));
    assert_eq!(reply, (500, "Failed to create task dir: e".to_string()));

    let mut upload = begun();
    upload.step(UploadEvent::DirReady);
    let reply = answer(upload.step(UploadEvent::Field(Disposition::Missing)));
    assert_eq!(reply, (400, "No content disposition".to_string()));

    let mut upload = begun();
    upload.step(UploadEvent::DirReady);
    let reply = answer(upload.step(UploadEvent::Field(Disposition::Unnamed)));
    assert_eq!(reply, (400, "No filename provided".to_string()));

    let mut upload = begun();
    upload.step(UploadEvent::DirReady);
    upload.step(named(".."));
    let reply = answer(upload.step(UploadEvent::OpenFailed("e".to_string())));
    assert_eq!(reply, (500, "Failed to create file: e".to_string()));

    let mut upload = begun();
    upload.step(UploadEvent::DirReady);
    upload.step(named("f"));
    upload.step(UploadEvent::Opened);
    upload.step(UploadEvent::Chunk);
    let reply = answer(upload.step(UploadEvent::WriteFailed("e".to_string())));
    assert_eq!(reply, (500, "Failed to write file: e".to_string()));
}

#[test]
fn an_upload_waits_for_what_it_asked() {
    let mut upload = begun();
    assert!(upload.awaits(&UploadEvent::DirReady));
    assert!(!upload.awaits(&UploadEvent::NoField));
    upload.step(UploadEvent::DirReady);
    assert!(upload.awaits(&named("x")));
    assert!(!upload.awaits(&UploadEvent::Chunk));
    upload.step(named("x"));
    assert!(upload.awaits(&UploadEvent::Opened));
    upload.step(UploadEvent::Opened);
    assert!(upload.awaits(&UploadEvent::Chunk));
    upload.step(UploadEvent::Chunk);
    assert!(upload.awaits(&UploadEvent::ChunkWritten));
    assert!(!upload.awaits(&UploadEvent::Chunk));
}

#[test]
fn names_lose_what_a_file_name_cannot_hold() {
    assert_eq!(sanitize("/etc/pass:wd", false), "etcpasswd");
    assert_eq!(sanitize("a\\b?c<d>e*f|g\"h\u{0}\n\u{9f}i", false), "abcdefghi");
    assert_eq!(sanitize("..", false), "");
    assert_eq!(sanitize("/./.", false), "");
    assert_eq!(sanitize("../x", false), "..x");
    assert_eq!(sanitize("r\u{e9}sum\u{e9} .", false), "r\u{e9}sum\u{e9} .");
    assert_eq!(sanitize("", false), "");
}

#[test]
fn long_names_are_cut_between_characters() {
    assert_eq!(sanitize(&"a".repeat(255), false), "a".repeat(255));
    assert_eq!(sanitize(&"a".repeat(300), false), "a".repeat(255));
    assert_eq!(sanitize(&"\u{e9}".repeat(200), false), "\u{e9}".repeat(127));
    assert_eq!(sanitize(&"\u{20ac}".repeat(86), false), "\u{20ac}".repeat(85));
    assert_eq!(sanitize(&"\u{1f40d}".repeat(64), false), "\u{1f40d}".repeat(63));
}

#[test]
fn windows_bars_more() {
    assert_eq!(sanitize("con.txt", true), "");
    assert_eq!(sanitize("con.txt", false), "con.txt");
    assert_eq!(sanitize("name. .", true), "name");
    assert_eq!(sanitize("a/b", true), "ab");
    for name in ["CON", "Prn.x", "aux.", "nuL.tar.gz", "c/om0", "LPT9.", "lpt1. ", "com3.\u{e9}"] {
        assert_eq!(sanitize(name, true), "", "{}", name);
    }
    for name in ["con1", "com", "lpt", "com10", "xcon", "co.n", "con x", ".con", "com\u{b9}"] {
        assert_eq!(sanitize(name, true), name, "{}", name);
    }
    assert_eq!(sanitize(". . a. b. . ", true), ". . a. b");
    assert_eq!(sanitize(". ", true), "");
    assert_eq!(sanitize("..", true), "");
    assert_eq!(sanitize("", true), "");
    assert_eq!(sanitize("con .", true), "con");
}

#[test]
fn windows_cuts_a_name_last() {
    let dots = ".".repeat(300);
    assert_eq!(sanitize(&dots, true), "");
    assert_eq!(sanitize(&format!("{}a", dots), true), ".".repeat(255));
    assert_eq!(sanitize(&format!("{}a", dots), false), ".".repeat(255));
    assert_eq!(sanitize(&format!("a{}", dots), true), "a");
    assert_eq!(sanitize(&format!("con.{}", "a".repeat(300)), true), "");
    assert_eq!(sanitize(&"\u{e9}".repeat(200), true), "\u{e9}".repeat(127));
}

fn expected(name: &str, windows: bool) -> String {
    let legal = |c: &char| {
        let code = *c as u32;
        code > 0x1f && !(0x80..=0x9f).contains(&code) && !"/?<>\\:*|\"".contains(*c)
    };
    let mut kept: String = name.chars().filter(legal).collect();
    if kept.chars().all(|c| c == '.') {
        kept.clear();
    }
    if windows {
        let stem = kept.split('.').next().unwrap().to_ascii_lowercase();
        let bytes = stem.as_bytes();
        let numbered = bytes.len() == 4
            && (stem.starts_with("com") || stem.starts_with("lpt"))
            && bytes[3].is_ascii_digit();
        if ["con", "prn", "aux", "nul"].contains(&stem.as_str()) || numbered {
            kept.clear();
        }
        kept = kept.trim_end_matches(['.', ' ']).to_string();
    }
    let mut room = 255;
    let fits = |c: &char| {
        let wide = c.len_utf8();
        let fits = wide <= room;
        room -= if fits { wide } else { room };
        fits
    };
    kept.chars().take_while(fits).collect()
}

#[test]
fn names_are_sanitized_by_either_set_of_rules() {
    let parts = [
        "", ".", "..", " ", "/", "con", "COM1", "lPt", "7", "x", "\u{e9}", "\u{1f40d}", "\n", ":",
        "aux.", "\u{212a}", "\u{130}", "nul ",
    ];
    for a in parts {
        for b in parts {
            for c in parts {
                for long in ["".to_string(), "ab.\u{20ac}".repeat(50)] {
                    let name = format!("{}{}{}{}", a, b, long, c);
                    for windows in [false, true] {
                        let file = sanitize(&name, windows);
                        assert_eq!(file, expected(&name, windows), "{:?} {}", name, windows);
                        assert!(file != "." && file != ".." && !file.contains('/'));
                    }
                }
            }
        }
    }
}

#[test]
fn files_stay_in_the_directory_of_their_task() {
    let names = ["..", ".", "../..", "../../etc/passwd", "/etc/passwd", "a/../b", "\\..\\x", ""];
    for windows in [false, true] {
        for name in names {
            let (mut upload, _) = match Upload::begin_by(&tasks(), &"t".to_string(), windows) {
                Ok(begun) => begun,
                other => panic!("{:?}", other),
            };
            upload.step(UploadEvent::DirReady);
            match upload.step(named(name)) {
                UploadAction::CreateFile(path) => {
                    let file = path.strip_prefix("data/scripts/t/").unwrap();
                    assert!(!file.contains('/') && file != "." && file != "..", "{}", path);
                },
                other => panic!("{:?}", other),
            }
        }
    }
}

/// What an upload of these parts asks for, up to the answer to `last`.
fn asked(fields: &[(&str, usize)], last: UploadEvent) -> (Vec<String>, (u16, String)) {
    let mut upload = begun();
    let mut events = vec![UploadEvent::DirReady];
    for (name, chunks) in fields {
        events.push(named(name));
        events.push(UploadEvent::Opened);
        for _ in 0..*chunks {
            events.push(UploadEvent::Chunk);
            events.push(UploadEvent::ChunkWritten);
        }
        events.push(UploadEvent::FieldEnd);
    }
    let mut all = Vec::new();
    for event in events {
        assert!(upload.awaits(&event));
        all.push(match upload.step(event) {
            UploadAction::NextField => "field".to_string(),
            UploadAction::NextChunk => "chunk".to_string(),
            UploadAction::WriteChunk => "write".to_string(),
            UploadAction::CreateFile(path) => path,
            other => panic!("{:?}", other),
        });
    }
    assert!(upload.awaits(&last));
    let reply = answer(upload.step(last));
    for event in [UploadEvent::DirReady, UploadEvent::NoField, UploadEvent::Chunk, UploadEvent::Opened] {
        assert!(!upload.awaits(&event));
    }
    (all, reply)
}

#[test]
fn a_whole_upload_writes_each_part() {
    let fields = [("a.csv", 2), ("../b", 0), ("c", 1)];
    let steps = vec![
        "field",
        "data/scripts/t/a.csv", "chunk", "write", "chunk", "write", "chunk", "field",
        "data/scripts/t/..b", "chunk", "field",
        "data/scripts/t/c", "chunk", "write", "chunk", "field",
    ];
    let (all, reply) = asked(&fields, UploadEvent::NoField);
    assert_eq!(all, steps);
    assert_eq!(reply, (200, "File uploaded".to_string()));
    let (all, reply) = asked(&fields, UploadEvent::Field(Disposition::Unnamed));
    assert_eq!(all, steps);
    assert_eq!(reply, (400, "No filename provided".to_string()));
    let (all, reply) = asked(&[], UploadEvent::Field(Disposition::Missing));
    assert_eq!(all, vec!["field"]);
    assert_eq!(reply, (400, "No content disposition".to_string()));
    let (all, reply) = asked(&[], UploadEvent::NoField);
    assert_eq!(all, vec!["field"]);
    assert_eq!(reply, (200, "File uploaded".to_string()));
}
