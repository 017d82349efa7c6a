use claude_history::error::AppError;
use claude_history::history::empty::{
    delete_empty_transcripts, empty_transcript, find_empty_transcripts, projects_in_scope,
    DeleteEmptyScope, DeleteEmptySummary, LineEntry, ScannedFile, ScannedProject,
    TranscriptLine, TranscriptPath,
};
use claude_history::history::loader::{
    build_cache, choose_preview, inject_project, list_conversations, load_all_conversations,
    load_conversations, order_files, plan_load, project_message, root_message,
    select_session_files, CacheRecord, CachedConversation, LoadFile, ParseOutcome, ParsedFile,
    ProjectLoad, ProjectsRoot,
};
use claude_history::history::names::NameMap;
use claude_history::history::projects::{list_projects, FoundProject};
use claude_history::history::search::{
    apply_search_text, has_cached_text, load_project_search_data, name_in_cache, search_message,
    CachedText, NormalizedText, SearchFile,
};
use claude_history::history::session::{
    delete_session_by_uuid, find_all_jsonl_by_uuid, find_jsonl_by_uuid, is_session_file,
    session_file_name, validate_session_id, ProjectEntry,
};
use claude_history::history::streaming::{LoaderEvent, LoaderPhase, LoaderStream};
use claude_history::history::types::{
    Conversation, FileName, FoundFile, LoaderMessage, Place, Project, SearchText,
};

fn file_name(name: &str) -> FileName {
    FileName {
        name: Some(name.to_string()),
        extension: name.rsplit_once('.').map(|(_, end)| end.to_string()),
    }
}

fn found(file: u64, name: &str, modified: Option<i128>) -> FoundFile {
    FoundFile {
        file,
        name: file_name(name),
        modified,
        size: file * 100,
    }
}

fn place(path: &str) -> Place {
    Place {
        path: path.to_string(),
        short_name: format!("short {path}"),
    }
}

fn conversation(file: u64, timestamp: i128) -> Conversation {
    Conversation {
        file,
        name: Some(format!("{file}.jsonl")),
        timestamp,
        index: 99,
        cwd: None,
        project_path: None,
        project_name: None,
        preview: String::new(),
        preview_first: format!("first {file}"),
        preview_last: format!("last {file}"),
        full_text: format!("text {file}"),
        search_text_lower: String::new(),
    }
}

fn path(project: &str, file: &str) -> TranscriptPath {
    TranscriptPath {
        project: project.to_string(),
        file: file.to_string(),
    }
}

fn user(line: &str, text: &str) -> TranscriptLine {
    TranscriptLine {
        text: line.to_string(),
        entry: LineEntry::User {
            text: text.to_string(),
            preview: text.split_whitespace().collect::<Vec<_>>().join(" "),
        },
    }
}

fn line(text: &str, entry: LineEntry) -> TranscriptLine {
    TranscriptLine {
        text: text.to_string(),
        entry,
    }
}

#[test]
fn empty_transcript_detects_user_only_command_session() {
    let lines = vec![user(
        r#"{"type":"user","message":{"role":"user","content":"<command-name>/status</command-name>"}}"#,
        "<command-name>/status</command-name>",
    )];

    let transcript = empty_transcript(path("p", "s.jsonl"), "s".to_string(), "project".to_string(), &lines)
        .expect("user-only transcript should be empty");

    assert_eq!(transcript.user_messages, 1);
    assert_eq!(transcript.line_count, 1);
    assert_eq!(transcript.project_name, "project");
    assert_eq!(
        transcript.preview.as_deref(),
        Some("<command-name>/status</command-name>")
    );
}

#[test]
fn empty_transcript_ignores_transcript_with_assistant_message() {
    let lines = vec![
        user(
            r#"{"type":"user","message":{"role":"user","content":"hi"}}"#,
            "hi",
        ),
        line(
            r#"{"type":"assistant","message":{"role":"assistant","content":[{"type":"text","text":"hello"}]}}"#,
            LineEntry::Assistant { counts: true },
        ),
    ];

    let transcript = empty_transcript(path("p", "s.jsonl"), "s".to_string(), "project".to_string(), &lines);

    assert!(transcript.is_none());
}

#[test]
fn empty_transcript_includes_metadata_only_file() {
    let lines = vec![line(
        r#"{"type":"summary","summary":"Only metadata"}"#,
        LineEntry::Other,
    )];

    let transcript = empty_transcript(path("p", "s.jsonl"), "s".to_string(), "project".to_string(), &lines)
        .expect("metadata-only transcript should be empty");

    assert_eq!(transcript.user_messages, 0);
    assert_eq!(transcript.line_count, 1);
    assert_eq!(transcript.preview, None);
}

#[test]
fn apply_search_text_hydrates_display_cache_conversation() {
    let mut conversation = conversation(7, 1);
    conversation.full_text.clear();
    conversation.search_text_lower.clear();
    let file = conversation.file;
    let mut conversations = vec![conversation];

    apply_search_text(
        &mut conversations,
        vec![NormalizedText {
            file,
            full_text: "hydrated body needle".to_string(),
            search_text_lower: "hydrated body needle".to_string(),
        }],
    );

    assert_eq!(conversations[0].full_text, "hydrated body needle");
    assert_eq!(conversations[0].search_text_lower, "hydrated body needle");
}

#[test]
fn warm_display_cache_is_hydrated_for_synchronous_loading() {
    let files = vec![found(1, "session.jsonl", Some(5))];
    let mut parsed = conversation(1, 5);
    parsed.name = Some("session.jsonl".to_string());
    parsed.full_text = "warm body needle".to_string();

    let plan = plan_load(
        vec![LoadFile {
            found: files[0].clone(),
            cached: None,
        }],
        0,
    );
    let cold = load_conversations(
        plan,
        &files,
        vec![ParsedFile {
            found: files[0].clone(),
            outcome: ParseOutcome::Conversation(parsed.clone()),
        }],
        false,
        &place("/p"),
    );
    assert_eq!(cold.conversations[0].full_text, "warm body needle");
    let caches = cold.caches.unwrap();
    assert_eq!(
        caches.records.get("session.jsonl"),
        Some(&CacheRecord::Conversation {
            index: 0,
            size: 100,
            mtime: 5
        })
    );
    assert_eq!(caches.inserts[0].full_text, "warm body needle");

    let mut shown = parsed.clone();
    shown.full_text.clear();
    let plan = plan_load(
        vec![LoadFile {
            found: files[0].clone(),
            cached: Some(CachedConversation::Conversation(shown)),
        }],
        1,
    );
    let mut warm = load_conversations(plan, &files, Vec::new(), false, &place("/p"));
    assert!(warm.caches.is_none());
    assert!(
        warm.conversations[0].full_text.is_empty(),
        "expected display-cache hit"
    );
    let load = load_project_search_data(
        &vec![SearchFile {
            found: files[0].clone(),
            cached: Some(CachedText {
                matches: true,
                full_text: caches.inserts[0].full_text.clone(),
            }),
        }],
        &vec![None],
    );
    assert!(load.inserts.is_empty());
    let texts = load
        .texts
        .into_iter()
        .map(|text| NormalizedText {
            file: text.file,
            search_text_lower: text.full_text.clone(),
            full_text: text.full_text,
        })
        .collect();
    apply_search_text(&mut warm.conversations, texts);

    assert_eq!(warm.conversations[0].full_text, "warm body needle");
    assert_eq!(warm.conversations[0].search_text_lower, "warm body needle");
}

#[test]
fn invalid_session_ids_are_rejected_before_lookup() {
    for invalid in ["", "../escape", "nested/session", "two..dots", "bad_name"] {
        assert!(validate_session_id(invalid).is_err(), "{invalid}");
    }
    assert!(validate_session_id("12345678-1234-4234-9234-123456789abc").is_ok());
}

#[test]
fn parse_failures_are_not_written_as_negative_cache_entries() {
    let files = vec![found(1, "broken.jsonl", Some(5))];
    let plan = plan_load(
        vec![LoadFile {
            found: files[0].clone(),
            cached: None,
        }],
        0,
    );
    let loaded = load_conversations(
        plan,
        &files,
        vec![ParsedFile {
            found: files[0].clone(),
            outcome: ParseOutcome::Failed,
        }],
        false,
        &place("/p"),
    );

    assert!(loaded.conversations.is_empty());
    let caches = loaded.caches.unwrap();
    assert!(caches.records.get("broken.jsonl").is_none());
    assert!(caches.inserts.is_empty());
}

#[test]
fn session_errors_name_the_session() {
    let error = validate_session_id("a b").unwrap_err();
    assert!(matches!(error, AppError::SessionNotFound(_)));
    assert_eq!(error.message(), "a b");
    assert!(validate_session_id("ä").is_err());
    assert_eq!(session_file_name("0-a"), "0-a.jsonl");
}

#[test]
fn sessions_are_found_where_they_are() {
    let entries = vec![
        ProjectEntry {
            is_dir: false,
            has_session: true,
        },
        ProjectEntry {
            is_dir: true,
            has_session: false,
        },
        ProjectEntry {
            is_dir: true,
            has_session: true,
        },
        ProjectEntry {
            is_dir: true,
            has_session: true,
        },
    ];
    assert_eq!(find_all_jsonl_by_uuid("x", &entries).unwrap(), vec![2, 3]);
    assert_eq!(find_jsonl_by_uuid("x", &entries).unwrap(), Some(2));
    assert_eq!(find_jsonl_by_uuid("x", &Vec::new()).unwrap(), None);
    let removals: Vec<(usize, String, String)> = delete_session_by_uuid("x", &entries)
        .unwrap()
        .into_iter()
        .map(|removal| (removal.project, removal.file, removal.session_dir))
        .collect();
    assert_eq!(
        removals,
        vec![
            (2, "x.jsonl".to_string(), "x".to_string()),
            (3, "x.jsonl".to_string(), "x".to_string())
        ]
    );
    let error = delete_session_by_uuid("x", &Vec::new()).unwrap_err();
    assert!(matches!(error, AppError::SessionNotFound(_)));
    assert_eq!(error.message(), "x");
    assert!(find_jsonl_by_uuid("../x", &entries).is_err());
    assert!(delete_session_by_uuid("", &entries).is_err());
}

#[test]
fn subagent_files_are_no_sessions() {
    assert!(is_session_file(&file_name("a.jsonl"), false));
    assert!(!is_session_file(&file_name("agent-a.jsonl"), true));
    assert!(!is_session_file(&file_name("a.json"), true));
    assert!(!is_session_file(&file_name("jsonl"), true));
    let unnamed = FileName {
        name: None,
        extension: Some("jsonl".to_string()),
    };
    assert!(is_session_file(&unnamed, true));
    assert!(!is_session_file(&unnamed, false));
    let kept = select_session_files(
        vec![
            found(1, "b.jsonl", None),
            found(2, "agent-b.jsonl", None),
            found(3, "b.txt", None),
            found(4, "a.jsonl", None),
        ],
        true,
    );
    let files: Vec<u64> = kept.iter().map(|file| file.file).collect();
    assert_eq!(files, vec![1, 4]);
}

#[test]
fn blank_and_unreadable_lines_do_not_decide() {
    let lines = vec![
        line("", LineEntry::Assistant { counts: true }),
        line("  ", LineEntry::Unreadable),
        line("{", LineEntry::Unreadable),
        line("{}", LineEntry::Assistant { counts: false }),
        line(
            "{}",
            LineEntry::Progress {
                message_type: "user".to_string(),
                counts: true,
            },
        ),
        user("{}", " \n"),
        user("{}", " a\n b"),
        user("{}", "c"),
    ];
    let transcript = empty_transcript(path("p", "s.jsonl"), "id".to_string(), "project".to_string(), &lines).unwrap();
    assert_eq!(transcript.line_count, 6);
    assert_eq!(transcript.user_messages, 2);
    assert_eq!(transcript.preview.as_deref(), Some("a b"));
    assert_eq!(transcript.session_id, "id");
    assert_eq!(transcript.path.file, "s.jsonl");
    let answered = vec![line(
        "{}",
        LineEntry::Progress {
            message_type: "assistant".to_string(),
            counts: true,
        },
    )];
    assert!(empty_transcript(path("p", "s.jsonl"), "id".to_string(), "project".to_string(), &answered).is_none());
}

fn scanned(name: &str, lines: Option<Vec<TranscriptLine>>) -> ScannedFile {
    ScannedFile {
        name: file_name(name),
        session_id: name.trim_end_matches(".jsonl").to_string(),
        lines,
    }
}

fn scanned_project(name: &str, files: Vec<ScannedFile>) -> ScannedProject {
    ScannedProject {
        name: name.to_string(),
        display_name: format!("/{name}"),
        files,
    }
}

#[test]
fn candidates_stand_by_their_paths() {
    let some = || Some(Vec::new());
    let ordered = find_empty_transcripts(&vec![
        scanned_project("b", vec![scanned("a.jsonl", some())]),
        scanned_project("a-b", vec![scanned("c.jsonl", some())]),
        scanned_project(
            "a",
            vec![
                scanned("z.jsonl", some()),
                scanned("B.jsonl", some()),
                scanned("a.jsonl", some()),
            ],
        ),
        scanned_project("é", vec![scanned("a.jsonl", some())]),
    ]);
    let names: Vec<String> = ordered
        .iter()
        .map(|t| format!("{}/{}", t.path.project, t.path.file))
        .collect();
    let mut expected: Vec<std::path::PathBuf> =
        names.iter().map(std::path::PathBuf::from).collect();
    expected.sort();
    let expected: Vec<String> = expected
        .iter()
        .map(|path| path.display().to_string())
        .collect();
    assert_eq!(names, expected);
    assert_eq!(names.len(), 6);
    assert_eq!(names[0], "a/B.jsonl");
    assert_eq!(ordered[0].session_id, "B");
    assert_eq!(ordered[0].project_name, "/a");
}

#[test]
fn answered_and_unreadable_files_are_not_offered() {
    let answer = line("{}", LineEntry::Assistant { counts: true });
    let unnamed = ScannedFile {
        name: FileName {
            name: None,
            extension: Some("jsonl".to_string()),
        },
        session_id: String::new(),
        lines: Some(Vec::new()),
    };
    let found = find_empty_transcripts(&vec![scanned_project(
        "p",
        vec![
            scanned("answered.jsonl", Some(vec![user("{}", "hi"), answer])),
            scanned("unread.jsonl", None),
            scanned("agent-1.jsonl", Some(Vec::new())),
            scanned("notes.txt", Some(Vec::new())),
            unnamed,
            scanned("empty.jsonl", Some(vec![user("{}", "hi")])),
        ],
    )]);
    assert_eq!(found.len(), 1);
    assert_eq!(found[0].path.file, "empty.jsonl");
    assert_eq!(found[0].preview.as_deref(), Some("hi"));
}

#[test]
fn the_scope_says_which_projects_are_scanned() {
    let project = |name: &str| Project {
        name: name.to_string(),
        display_name: name.to_string(),
        modified: 0,
    };
    let all = projects_in_scope(
        DeleteEmptyScope::All,
        vec![project("a"), project("b")],
        None,
    );
    assert_eq!(all.len(), 2);
    let local = projects_in_scope(
        DeleteEmptyScope::Local,
        vec![project("a")],
        Some(project("c")),
    );
    assert_eq!(local.len(), 1);
    assert_eq!(local[0].name, "c");
    assert!(projects_in_scope(DeleteEmptyScope::Local, Vec::new(), None).is_empty());
}

#[test]
fn only_a_deletion_counts_what_it_deletes() {
    let projects = vec![scanned_project(
        "p",
        vec![
            scanned("b.jsonl", Some(Vec::new())),
            scanned("a.jsonl", Some(Vec::new())),
            scanned(
                "answered.jsonl",
                Some(vec![line("{}", LineEntry::Assistant { counts: true })]),
            ),
        ],
    )];
    let listing = delete_empty_transcripts(&projects, false);
    assert_eq!(listing.summary.deleted, 0);
    assert_eq!(listing.summary.candidates.len(), 2);
    assert!(listing.removals.is_empty());
    let deletion = delete_empty_transcripts(&projects, true);
    assert_eq!(deletion.summary.deleted, 2);
    let removed: Vec<(&str, &str, &str)> = deletion
        .removals
        .iter()
        .map(|removal| {
            (
                removal.file.project.as_str(),
                removal.file.file.as_str(),
                removal.session_dir.file.as_str(),
            )
        })
        .collect();
    assert_eq!(removed, vec![("p", "a.jsonl", "a"), ("p", "b.jsonl", "b")]);
    assert_eq!(deletion.removals[0].session_dir.project, "p");
    let listed: Vec<&str> = listing
        .summary
        .candidates
        .iter()
        .map(|transcript| transcript.path.file.as_str())
        .collect();
    assert_eq!(listed, vec!["a.jsonl", "b.jsonl"]);
    assert_eq!(DeleteEmptySummary::default().deleted, 0);
    assert_ne!(DeleteEmptyScope::All, DeleteEmptyScope::Local);
}

#[test]
fn the_last_text_of_a_file_reaches_its_first_conversation() {
    let mut conversations = vec![
        conversation(1, 3),
        conversation(2, 2),
        conversation(1, 1),
        conversation(3, 0),
    ];
    let text = |file: u64, text: &str| NormalizedText {
        file,
        full_text: text.to_string(),
        search_text_lower: text.to_lowercase(),
    };
    apply_search_text(
        &mut conversations,
        vec![text(1, "Old"), text(2, "Two"), text(1, "New"), text(9, "X")],
    );
    let texts: Vec<&str> = conversations.iter().map(|c| c.full_text.as_str()).collect();
    assert_eq!(texts, vec!["New", "Two", "text 1", "text 3"]);
    assert_eq!(conversations[0].search_text_lower, "new");
    assert_eq!(conversations[0].timestamp, 3);
}

#[test]
fn texts_come_from_the_cache_or_from_the_files() {
    let cached = |matches: bool| {
        Some(CachedText {
            matches,
            full_text: "cached".to_string(),
        })
    };
    let file = |n: u64, modified: Option<i128>, cached: Option<CachedText>| SearchFile {
        found: found(n, &format!("{n}.jsonl"), modified),
        cached,
    };
    let files = vec![
        file(1, Some(5), cached(true)),
        file(2, Some(6), cached(false)),
        file(3, None, cached(true)),
        file(4, Some(7), None),
    ];
    let hits: Vec<bool> = files.iter().map(has_cached_text).collect();
    assert_eq!(hits, vec![true, false, false, false]);
    let load = load_project_search_data(
        &files,
        &vec![
            None,
            Some("two".to_string()),
            Some("three".to_string()),
            None,
        ],
    );
    let texts: Vec<(u64, &str)> = load
        .texts
        .iter()
        .map(|text| (text.file, text.full_text.as_str()))
        .collect();
    assert_eq!(texts, vec![(1, "cached"), (2, "two"), (3, "three")]);
    assert_eq!(load.inserts.len(), 1);
    assert_eq!(load.inserts[0].name, "2.jsonl");
    assert_eq!(load.inserts[0].full_text, "two");
    assert_eq!(load.inserts[0].size, 200);
    assert_eq!(load.inserts[0].mtime, 6);
}

#[test]
fn search_batches_are_sent_unless_empty() {
    assert!(search_message(Vec::new()).is_none());
    let message = search_message(vec![SearchText {
        file: 1,
        full_text: "a".to_string(),
    }]);
    assert!(matches!(message, Some(LoaderMessage::SearchBatch(batch)) if batch.len() == 1));
}

#[test]
fn files_are_latest_first() {
    let ordered = order_files(vec![
        found(1, "1.jsonl", Some(5)),
        found(2, "2.jsonl", None),
        found(3, "3.jsonl", Some(7)),
        found(4, "4.jsonl", Some(5)),
        found(5, "5.jsonl", Some(-1)),
    ]);
    let files: Vec<u64> = ordered.iter().map(|file| file.file).collect();
    assert_eq!(files, vec![3, 4, 1, 2, 5]);
}

fn hit(n: u64, modified: Option<i128>, matches: bool, is_empty: bool) -> LoadFile {
    LoadFile {
        found: found(n, &format!("{n}.jsonl"), modified),
        cached: Some(match (matches, is_empty) {
            (false, _) => CachedConversation::Stale,
            (true, true) => CachedConversation::Empty,
            (true, false) => CachedConversation::Conversation(conversation(n, n as i128)),
        }),
    }
}

#[test]
fn files_are_cached_or_read() {
    let plan = plan_load(
        vec![
            hit(1, Some(1), true, false),
            hit(2, Some(1), true, true),
            hit(3, Some(1), false, false),
            hit(4, None, true, false),
            LoadFile {
                found: found(5, "5.jsonl", Some(1)),
                cached: None,
            },
        ],
        5,
    );
    let cached: Vec<u64> = plan.conversations.iter().map(|c| c.file).collect();
    let read: Vec<u64> = plan.files_to_parse.iter().map(|f| f.file).collect();
    assert_eq!(cached, vec![1]);
    assert_eq!(read, vec![3, 4, 5]);
    assert!(plan.dirty);
    assert!(!plan_load(vec![hit(1, Some(1), true, false)], 1).dirty);
    assert!(plan_load(vec![hit(1, Some(1), true, false)], 2).dirty);
    assert!(!plan_load(Vec::new(), 0).dirty);
}

#[test]
fn loads_are_ordered_indexed_and_cached() {
    let files = vec![
        found(1, "1.jsonl", Some(10)),
        found(2, "2.jsonl", Some(20)),
        found(3, "3.jsonl", Some(30)),
        found(4, "4.jsonl", None),
    ];
    let plan = plan_load(
        vec![
            hit(1, Some(10), true, false),
            hit(2, Some(20), false, false),
            hit(3, Some(30), false, false),
            hit(4, None, false, false),
        ],
        4,
    );
    let mut second = conversation(2, 50);
    second.cwd = Some(place("/cwd"));
    let loaded = load_conversations(
        plan,
        &files,
        vec![
            ParsedFile {
                found: files[1].clone(),
                outcome: ParseOutcome::Conversation(second),
            },
            ParsedFile {
                found: files[2].clone(),
                outcome: ParseOutcome::Empty,
            },
            ParsedFile {
                found: files[3].clone(),
                outcome: ParseOutcome::Conversation(conversation(4, 1)),
            },
        ],
        true,
        &place("/fallback"),
    );
    let shown: Vec<(u64, usize, &str)> = loaded
        .conversations
        .iter()
        .map(|c| (c.file, c.index, c.preview.as_str()))
        .collect();
    assert_eq!(shown, vec![(2, 0, "last 2"), (1, 1, ""), (4, 2, "last 4")]);
    assert_eq!(
        loaded.conversations[0].project_path.as_deref(),
        Some("/cwd")
    );
    assert_eq!(
        loaded.conversations[1].project_name.as_deref(),
        Some("short /fallback")
    );
    let caches = loaded.caches.unwrap();
    assert_eq!(caches.records.len(), 3);
    assert_eq!(
        caches.records.get("2.jsonl"),
        Some(&CacheRecord::Conversation {
            index: 0,
            size: 200,
            mtime: 20
        })
    );
    assert_eq!(
        caches.records.get("3.jsonl"),
        Some(&CacheRecord::Empty {
            size: 300,
            mtime: 30
        })
    );
    assert!(caches.records.get("4.jsonl").is_none());
    assert_eq!(caches.inserts.len(), 1);
    assert_eq!(caches.inserts[0].name, "2.jsonl");
}

#[test]
fn names_that_are_no_text_are_cached_as_unknown() {
    let file = FoundFile {
        file: 1,
        name: FileName {
            name: None,
            extension: Some("jsonl".to_string()),
        },
        modified: Some(3),
        size: 8,
    };
    assert_eq!(name_in_cache(&file, "unknown"), "unknown");
    let mut unnamed = conversation(1, 0);
    unnamed.name = None;
    let records = build_cache(&vec![unnamed], &vec![file], &Vec::new());
    assert!(records.get("unknown").is_some());
}

#[test]
fn the_latest_conversation_is_first_and_ties_keep_their_order() {
    let list = list_conversations(vec![
        conversation(1, 5),
        conversation(2, 9),
        conversation(3, 5),
        conversation(4, 9),
        conversation(5, 7),
    ]);
    let files: Vec<u64> = list.iter().map(|c| c.file).collect();
    assert_eq!(files, vec![2, 4, 5, 1, 3]);
    let indices: Vec<usize> = list.iter().map(|c| c.index).collect();
    assert_eq!(indices, vec![0, 1, 2, 3, 4]);
}

#[test]
fn projects_are_told_once() {
    let once = inject_project(vec![conversation(1, 0)], &place("/a"));
    let twice = inject_project(once.clone(), &place("/a"));
    assert_eq!(once[0].project_path, twice[0].project_path);
    assert_eq!(once[0].project_name.as_deref(), Some("short /a"));
}

#[test]
fn previews_show_the_start_or_the_end() {
    assert_eq!(choose_preview(conversation(1, 0), false).preview, "first 1");
    assert_eq!(choose_preview(conversation(1, 0), true).preview, "last 1");
}

#[test]
fn all_projects_make_one_list() {
    let list = load_all_conversations(vec![
        ProjectLoad {
            conversations: Some(vec![conversation(1, 1), conversation(2, 3)]),
            fallback: place("/a"),
        },
        ProjectLoad {
            conversations: None,
            fallback: place("/b"),
        },
        ProjectLoad {
            conversations: Some(vec![conversation(3, 2)]),
            fallback: place("/c"),
        },
    ]);
    let shown: Vec<(u64, usize, Option<&str>)> = list
        .iter()
        .map(|c| (c.file, c.index, c.project_path.as_deref()))
        .collect();
    assert_eq!(
        shown,
        vec![
            (2, 0, Some("/a")),
            (3, 1, Some("/c")),
            (1, 2, Some("/a"))
        ]
    );
}

#[test]
fn projects_are_told_of_as_they_load() {
    let load = |conversations: Option<Vec<Conversation>>| ProjectLoad {
        conversations,
        fallback: place("/a"),
    };
    assert!(matches!(
        project_message(load(None)),
        Some(LoaderMessage::ProjectError)
    ));
    assert!(project_message(load(Some(Vec::new()))).is_none());
    match project_message(load(Some(vec![conversation(1, 1)]))) {
        Some(LoaderMessage::Batch(batch)) => {
            assert_eq!(batch[0].project_path.as_deref(), Some("/a"));
        }
        _ => panic!("expected a batch"),
    }
}

#[test]
fn a_missing_root_ends_the_load() {
    let root = |exists: bool| ProjectsRoot {
        path: "/none".to_string(),
        exists,
    };
    assert!(root_message(Ok(root(true))).is_none());
    match root_message(Ok(root(false))) {
        Some(LoaderMessage::Fatal(AppError::ProjectsDirNotFound(path))) => {
            assert_eq!(path, "/none");
        }
        _ => panic!("expected a fatal message"),
    }
    assert!(matches!(
        root_message(Err(AppError::ConfigError("no home".to_string()))),
        Some(LoaderMessage::Fatal(AppError::ConfigError(_)))
    ));
}

#[test]
fn projects_are_directories_with_sessions() {
    let project = |name: &str, modified: Option<Option<i128>>| FoundProject {
        is_dir: true,
        files: Some(vec![file_name("agent-1.jsonl"), file_name("a.jsonl")]),
        name: name.to_string(),
        display_name: format!("/{name}"),
        modified,
    };
    let mut plain_file = project("file", Some(Some(9)));
    plain_file.is_dir = false;
    let mut unlisted = project("unlisted", Some(Some(9)));
    unlisted.files = None;
    let mut agents = project("agents", Some(Some(9)));
    agents.files = Some(vec![file_name("agent-1.jsonl")]);
    let projects = list_projects(&vec![
        project("old", Some(Some(1))),
        plain_file,
        unlisted,
        agents,
        project("unknown", None),
        project("undated", Some(None)),
        project("new", Some(Some(5))),
    ]);
    let names: Vec<(&str, i128)> = projects
        .iter()
        .map(|p| (p.name.as_str(), p.modified))
        .collect();
    assert_eq!(names, vec![("new", 5), ("old", 1), ("undated", 0)]);
    assert_eq!(projects[0].display_name, "/new");
}

#[test]
fn names_stand_once() {
    let mut map: NameMap<u64> = NameMap::new();
    map.insert("a".to_string(), 1);
    map.insert("b".to_string(), 2);
    map.insert("a".to_string(), 3);
    assert_eq!(map.len(), 2);
    assert_eq!(map.get("a"), Some(&3));
    assert_eq!(map.get("c"), None);
    let mut items = map.into_items();
    items.sort();
    assert_eq!(items, vec![("a".to_string(), 3), ("b".to_string(), 2)]);
}

#[test]
fn the_stream_tells_of_its_end_once() {
    let mut stream = LoaderStream::new();
    assert!(stream
        .advance(LoaderEvent::Root(Ok(ProjectsRoot {
            path: "/".to_string(),
            exists: true,
        })))
        .is_empty());
    assert!(stream.advance(LoaderEvent::Projects(Ok(2))).is_empty());
    let load = |conversations: Option<Vec<Conversation>>| {
        LoaderEvent::Project(ProjectLoad {
            conversations,
            fallback: place("/a"),
        })
    };
    let first = stream.advance(load(Some(vec![conversation(1, 1)])));
    assert!(matches!(first.as_slice(), [LoaderMessage::Batch(_)]));
    let second = stream.advance(load(None));
    assert!(matches!(
        second.as_slice(),
        [LoaderMessage::ProjectError, LoaderMessage::Done]
    ));
    assert!(stream.advance(load(None)).is_empty());
    assert!(stream.advance(LoaderEvent::Texts(Vec::new())).is_empty());
    let last = stream.advance(LoaderEvent::Texts(vec![SearchText {
        file: 1,
        full_text: "a".to_string(),
    }]));
    assert!(matches!(
        last.as_slice(),
        [LoaderMessage::SearchBatch(_), LoaderMessage::SearchDone]
    ));
    assert_eq!(stream.phase, LoaderPhase::Ended);
    assert!(stream.advance(LoaderEvent::Texts(Vec::new())).is_empty());
}

#[test]
fn fatal_messages_end_the_stream() {
    let error = || AppError::ConfigError("no".to_string());
    let mut stream = LoaderStream::new();
    let told = stream.advance(LoaderEvent::Root(Err(error())));
    assert!(matches!(told.as_slice(), [LoaderMessage::Fatal(_)]));
    assert!(stream.advance(LoaderEvent::Projects(Ok(0))).is_empty());
    let mut stream = LoaderStream {
        phase: LoaderPhase::Listing,
    };
    let told = stream.advance(LoaderEvent::Projects(Err(error())));
    assert!(matches!(told.as_slice(), [LoaderMessage::Fatal(_)]));
    assert_eq!(stream.phase, LoaderPhase::Ended);
    let mut stream = LoaderStream {
        phase: LoaderPhase::Listing,
    };
    let told = stream.advance(LoaderEvent::Projects(Ok(0)));
    assert!(matches!(
        told.as_slice(),
        [LoaderMessage::Done, LoaderMessage::SearchDone]
    ));
}

#[test]
fn a_load_lists_every_conversation_once() {
    let files = vec![
        hit(1, Some(1), true, false),
        hit(2, Some(1), true, true),
        hit(3, Some(1), false, false),
        hit(4, Some(1), false, false),
        hit(5, Some(1), false, false),
    ];
    let found: Vec<FoundFile> = files.iter().map(|file| file.found.clone()).collect();
    let plan = plan_load(files, 5);
    let parsed = plan
        .files_to_parse
        .iter()
        .map(|file| ParsedFile {
            found: file.clone(),
            outcome: match file.file {
                3 => ParseOutcome::Conversation(conversation(3, 9)),
                4 => ParseOutcome::Empty,
                _ => ParseOutcome::Failed,
            },
        })
        .collect();
    let loaded = load_conversations(plan, &found, parsed, false, &place("/p"));
    let listed: Vec<u64> = loaded.conversations.iter().map(|c| c.file).collect();
    assert_eq!(listed, vec![3, 1]);
}

#[test]
fn errors_of_files_carry_their_text() {
    assert_eq!(AppError::Io("denied".to_string()).message(), "denied");
}
