use seedraft::context::{context_from, fetch_linked_context, linked_context_for};
use seedraft::records::{
    LinkedNote, LiveSegment, LiveSession, Note, NoteTag, Project, Tag, Translation,
};
use seedraft::requests::{
    create_note, create_note_link, draft_notes, draft_title, get_draft, get_live_session,
    normalize_theme, normalize_theme_field, note_pairs, plan_translation, project_name,
    reorder_notes, session_title, set_note_parent, store_draft, store_translation, update_note,
    CreateNoteInput, CreateTranslationInput, ThemeInput, UpdateNoteInput,
};
use seedraft::storage::{Storage, Tables};

fn store() -> Storage {
    Storage::open_with(Tables::new(), true, "p".to_string(), 1).unwrap()
}

fn note(id: &str, text: &str, at: i64) -> Note {
    Note {
        id: id.to_string(),
        project_id: "p".to_string(),
        title: format!("title {}", id),
        text: text.to_string(),
        source_name: None,
        language: None,
        duration: None,
        meta: None,
        parent_id: None,
        position: 9,
        created_at: at,
        updated_at: at,
    }
}

fn listed(storage: &Storage) -> Vec<String> {
    storage
        .list_notes("p")
        .unwrap()
        .iter()
        .map(|n| n.note.id.clone())
        .collect()
}

fn words(list: &[&str]) -> Vec<String> {
    list.iter().map(|s| s.to_string()).collect()
}

#[test]
fn empty_store_gets_a_project() {
    let storage = store();
    let projects = storage.list_projects().unwrap();
    assert_eq!(projects.len(), 1);
    assert_eq!(projects[0].id, "p");
    assert_eq!(projects[0].name, "Default");
    assert_eq!(storage.default_project_id().unwrap(), "p");
    let random = Storage::open(Tables::new(), true).unwrap();
    let id = random.default_project_id().unwrap();
    assert_eq!(id.len(), 36);
    assert_eq!(&id[14..15], "4");
}

#[test]
fn rows_that_do_not_fit_are_told() {
    let mut tables = Tables::new();
    assert!(tables.is_consistent());
    let mut lost = note("a", "x", 1);
    lost.project_id = "gone".to_string();
    tables.notes.push(lost);
    assert!(!tables.is_consistent());
    let storage = Storage::open_with(tables, true, "p".to_string(), 1).unwrap();
    assert_eq!(storage.list_projects().unwrap().len(), 1);
    assert_eq!(storage.list_notes("gone").unwrap().len(), 1);
    assert!(!storage.tables().is_consistent());
}

#[test]
fn projects_are_kept() {
    let mut storage = store();
    let made = storage
        .create_project_with("q".to_string(), 5, "Work", Some("about work"))
        .unwrap();
    assert_eq!(made.created_at, 5);
    let listed: Vec<String> = storage
        .list_projects()
        .unwrap()
        .iter()
        .map(|p| p.id.clone())
        .collect();
    assert_eq!(listed, vec!["q", "p"]);
    assert_eq!(storage.default_project_id().unwrap(), "p");
    storage.update_project_at("q", "Play", None, 6).unwrap();
    let q = storage.get_project("q").unwrap().unwrap();
    assert_eq!((q.name.as_str(), q.description, q.updated_at), ("Play", None, 6));
    storage.delete_project("q").unwrap();
    assert!(storage.get_project("q").unwrap().is_none());
}

#[test]
fn new_projects_have_ids_of_their_own() {
    let mut storage = store();
    let before = storage.copy();
    let a = storage.create_project("Work", None).unwrap();
    let b = storage.create_project("Work", Some("again")).unwrap();
    assert_eq!(a.id.len(), 36);
    assert_ne!(a.id, b.id);
    assert!(a.created_at > 0);
    assert_eq!(a.created_at, a.updated_at);
    assert_eq!(storage.get_project(&b.id).unwrap().unwrap().description.as_deref(), Some("again"));
    assert_eq!(storage.list_projects().unwrap().len(), 3);
    assert_eq!(before.list_projects().unwrap().len(), 1);
}

#[test]
fn deleted_project_takes_its_notes() {
    let mut storage = store();
    storage.add_note(&note("a", "x", 1)).unwrap();
    storage.add_note(&note("b", "y", 2)).unwrap();
    storage.create_project_with("q".to_string(), 5, "Work", None).unwrap();
    storage
        .add_note_link_with("l".to_string(), 1, "a", "b", None)
        .unwrap();
    storage.delete_project("p").unwrap();
    assert_eq!(listed(&storage).len(), 0);
    assert_eq!(storage.tables().notes.len(), 0);
    assert_eq!(storage.tables().links.len(), 0);
    assert_eq!(storage.tables().projects.len(), 1);
}

#[test]
fn added_note_comes_first() {
    let mut storage = store();
    storage.add_note(&note("a", "x", 1)).unwrap();
    storage.add_note(&note("b", "y", 2)).unwrap();
    assert_eq!(listed(&storage), vec!["b", "a"]);
    let notes = storage.list_notes("p").unwrap();
    assert_eq!(notes[0].note.position, 0);
    assert_eq!(notes[1].note.position, 1);
    assert_eq!(storage.get_project("p").unwrap().unwrap().updated_at, 2);
}

#[test]
fn note_refusals_are_told() {
    let mut storage = store();
    storage.add_note(&note("a", "x", 1)).unwrap();
    assert_eq!(
        storage.add_note(&note("a", "x", 1)).unwrap_err().0,
        "UNIQUE constraint failed: notes.id"
    );
    let mut stray = note("b", "x", 1);
    stray.project_id = "none".to_string();
    assert_eq!(
        storage.add_note(&stray).unwrap_err().0,
        "FOREIGN KEY constraint failed"
    );
    let mut orphan = note("b", "x", 1);
    orphan.parent_id = Some("none".to_string());
    assert_eq!(
        storage.add_note(&orphan).unwrap_err().0,
        "FOREIGN KEY constraint failed"
    );
}

#[test]
fn room_for_notes_is_checked() {
    let mut tables = Tables::new();
    tables.projects.push(Project {
        id: "p".to_string(),
        name: "n".to_string(),
        description: None,
        created_at: 0,
        updated_at: 0,
    });
    let mut last = note("a", "x", 1);
    last.position = i64::MAX;
    tables.notes.push(last);
    let storage = Storage::open_with(tables, true, "z".to_string(), 1).unwrap();
    assert!(!storage.has_room("p"));
    assert!(storage.has_room("q"));
}

#[test]
fn notes_without_places_are_placed_by_age() {
    let mut tables = Tables::new();
    tables.projects.push(Project {
        id: "p".to_string(),
        name: "n".to_string(),
        description: None,
        created_at: 0,
        updated_at: 0,
    });
    for (id, at) in [("a", 1), ("b", 3), ("c", 2)] {
        let mut n = note(id, "x", at);
        n.position = 0;
        tables.notes.push(n);
    }
    let storage = Storage::open_with(tables, false, "z".to_string(), 1).unwrap();
    assert_eq!(listed(&storage), vec!["b", "c", "a"]);
}

#[test]
fn reordered_notes_stand_in_order() {
    let mut storage = store();
    for id in ["a", "b", "c"] {
        storage.add_note(&note(id, "x", 1)).unwrap();
    }
    reorder_notes(&mut storage, "p", &words(&["a", "c", "b"])).unwrap();
    assert_eq!(listed(&storage), vec!["a", "c", "b"]);
    let e = reorder_notes(&mut storage, "p", &vec![]).unwrap_err();
    assert_eq!((e.status, e.message.as_str()), (400, "note_ids is required"));
}

#[test]
fn parents_never_go_in_circles() {
    let mut storage = store();
    for id in ["a", "b", "c"] {
        storage.add_note(&note(id, "x", 1)).unwrap();
    }
    set_note_parent(&mut storage, "b", Some(" a ")).unwrap();
    set_note_parent(&mut storage, "c", Some("b")).unwrap();
    let e = set_note_parent(&mut storage, "a", Some("c")).unwrap_err();
    assert_eq!((e.status, e.message.as_str()), (400, "cycle detected in parent chain"));
    let e = set_note_parent(&mut storage, "a", Some("a")).unwrap_err();
    assert_eq!(e.message, "a note cannot be its own parent");
    let e = set_note_parent(&mut storage, "a", Some("none")).unwrap_err();
    assert_eq!(e.message, "FOREIGN KEY constraint failed");
    set_note_parent(&mut storage, "b", Some("  ")).unwrap();
    assert!(storage.list_notes("p").unwrap().iter().all(|n| n.note.id != "b"
        || n.note.parent_id.is_none()));
}

#[test]
fn too_many_parents_are_refused() {
    let mut storage = store();
    for i in 0..70 {
        storage.add_note(&note(&format!("n{}", i), "x", 1)).unwrap();
    }
    let mut refused = None;
    for i in 1..70 {
        let r = storage.set_note_parent_at(&format!("n{}", i), Some(&format!("n{}", i - 1)), 1);
        if let Err(e) = r {
            refused = Some((i, e.0));
            break;
        }
    }
    assert_eq!(refused, Some((65, "parent chain too deep".to_string())));
}

#[test]
fn tags_are_read_back() {
    let mut storage = store();
    storage.add_note(&note("a", "x", 1)).unwrap();
    storage.add_note(&note("b", "y", 2)).unwrap();
    storage
        .set_note_tags_with("a", &words(&["red", " ", "blue", "red"]), &words(&["1", "2", "3", "4"]))
        .unwrap();
    storage.set_note_tags("b", &words(&["red"])).unwrap();
    let notes = storage.list_notes("p").unwrap();
    assert_eq!(notes[1].tags, vec!["blue", "red"]);
    assert_eq!(notes[0].tags, vec!["red"]);
    assert_eq!(storage.tables().tags.len(), 2);
    storage.set_note_tags("a", &vec![]).unwrap();
    assert_eq!(storage.tables().tags.len(), 1);
    assert_eq!(
        storage.set_note_tags("none", &vec![]).unwrap_err().0,
        "Query returned no rows"
    );
}

#[test]
fn deleted_note_is_gone() {
    let mut storage = store();
    for id in ["a", "b"] {
        storage.add_note(&note(id, "x", 1)).unwrap();
    }
    storage.set_note_parent_at("b", Some("a"), 2).unwrap();
    storage.add_note_link("a", "b", Some("see")).unwrap();
    storage.set_note_tags("a", &words(&["t"])).unwrap();
    storage
        .create_draft_with("d".to_string(), 1, "p", "t", "c", &words(&["a", "b"]))
        .unwrap();
    storage.delete_note("a").unwrap();
    assert_eq!(listed(&storage), vec!["b"]);
    assert_eq!(storage.tables().links.len(), 0);
    assert_eq!(storage.get_draft("d").unwrap().unwrap().note_ids, vec!["b"]);
    assert!(storage.list_notes("p").unwrap()[0].note.parent_id.is_none());
    storage.delete_note("a").unwrap();
    assert_eq!(listed(&storage), vec!["b"]);
}

#[test]
fn links_are_drawn_once() {
    let mut storage = store();
    for id in ["a", "b"] {
        storage.add_note(&note(id, "x", 1)).unwrap();
    }
    let link = create_note_link(&mut storage, " a ", "b", Some(" see ")).unwrap();
    assert_eq!(link.label.as_deref(), Some("see"));
    let again = create_note_link(&mut storage, "a", "b", None).unwrap();
    assert_eq!(again.id, link.id);
    assert_eq!(storage.list_note_links("p").unwrap().len(), 1);
    let e = create_note_link(&mut storage, " ", "b", None).unwrap_err();
    assert_eq!(e.message, "note ids are required");
    let e = create_note_link(&mut storage, "a ", "a", None).unwrap_err();
    assert_eq!((e.status, e.message.as_str()), (400, "cannot link a note to itself"));
    let e = create_note_link(&mut storage, "a", "none", None).unwrap_err();
    assert_eq!((e.status, e.message.as_str()), (500, "FOREIGN KEY constraint failed"));
    let linked = storage.list_linked_notes("b").unwrap();
    assert_eq!(linked[0].direction, "in");
    storage.delete_note_link(&link.id).unwrap();
    assert_eq!(storage.list_note_links("p").unwrap().len(), 0);
}

#[test]
fn graph_shows_notes_tags_and_links() {
    let mut storage = store();
    for id in ["a", "b"] {
        storage.add_note(&note(id, "x", 1)).unwrap();
    }
    storage.set_note_parent_at("b", Some("a"), 2).unwrap();
    storage.set_note_tags("a", &words(&["t"])).unwrap();
    storage
        .add_note_link_with("l".to_string(), 1, "b", "a", Some("see"))
        .unwrap();
    let graph = storage.graph("p").unwrap();
    let nodes: Vec<&str> = graph.nodes.iter().map(|n| n.id.as_str()).collect();
    assert_eq!(nodes, vec!["project:p", "note:b", "note:a", "tag:t"]);
    let edges: Vec<(&str, &str, &str)> = graph
        .edges
        .iter()
        .map(|e| (e.source.as_str(), e.target.as_str(), e.kind.as_str()))
        .collect();
    assert_eq!(
        edges,
        vec![
            ("project:p", "note:a", "contains"),
            ("note:a", "tag:t", "tagged"),
            ("note:b", "note:a", "link"),
            ("note:a", "note:b", "parent"),
        ]
    );
    assert_eq!(storage.graph("none").unwrap_err().0, "project not found");
}

#[test]
fn linked_notes_give_context() {
    let mut storage = store();
    for id in ["a", "b"] {
        storage.add_note(&note(id, &format!(" text {} ", id), 1)).unwrap();
    }
    storage.add_note_link("a", "b", Some("see")).unwrap();
    let context = fetch_linked_context(&storage, " a ").unwrap();
    assert!(context.ends_with(
        "\n- [Referenced from this note with label \"see\"] title b\n  text b"
    ));
    let back = linked_context_for(&storage, Some("b"), true).unwrap();
    assert!(back.contains("- [Backlink to this note with label \"see\"] title a\n  text a"));
    assert!(linked_context_for(&storage, Some("b"), false).is_none());
    assert!(linked_context_for(&storage, None, true).is_none());
    assert!(linked_context_for(&storage, Some("  "), true).is_none());
    assert!(fetch_linked_context(&storage, "none").is_none());
}

#[test]
fn context_is_bounded() {
    let long = |title: &str| LinkedNote {
        id: title.to_string(),
        title: title.to_string(),
        text: "x".repeat(1500),
        label: None,
        direction: "out".to_string(),
    };
    let context = context_from(&vec![long("a"), long("b"), long("c"), long("d"), long("e")]).unwrap();
    assert!(context.chars().count() < 4400);
    assert!(context.contains(&format!("- [Linked note] a\n  {}…\n", "x".repeat(1000))));
    assert!(!context.contains("[Linked note] e"));
    assert!(context_from(&vec![]).is_none());
}

fn input(title: &str, text: &str) -> CreateNoteInput {
    CreateNoteInput {
        project_id: "p".to_string(),
        title: title.to_string(),
        text: text.to_string(),
        source_name: None,
        language: None,
        duration: Some(1.5f64.to_bits()),
        meta: None,
        tags: Some(words(&["t"])),
        parent_id: Some("  ".to_string()),
    }
}

#[test]
fn notes_are_made() {
    let mut storage = store();
    let made = create_note(&mut storage, &input("  ", "# Hello\nworld ")).unwrap();
    assert_eq!(made.title, "Hello");
    assert_eq!(made.text, "# Hello\nworld");
    assert_eq!(made.id.len(), 36);
    assert_eq!(made.parent_id, None);
    assert_eq!(made.duration.map(f64::from_bits), Some(1.5));
    assert_eq!(storage.list_notes("p").unwrap()[0].tags, vec!["t"]);
    let titled = create_note(&mut storage, &input(" T ", "x")).unwrap();
    assert_eq!(titled.title, "T");
    let quoted = create_note(&mut storage, &input("", "\"\"")).unwrap();
    assert_eq!(quoted.title, "\"\"");
    let e = create_note(&mut storage, &input("T", " ")).unwrap_err();
    assert_eq!((e.status, e.message.as_str()), (400, "text is required"));
    let mut stray = input("T", "x");
    stray.project_id = "none".to_string();
    let e = create_note(&mut storage, &stray).unwrap_err();
    assert_eq!((e.status, e.message.as_str()), (500, "FOREIGN KEY constraint failed"));
}

#[test]
fn notes_are_changed() {
    let mut storage = store();
    storage.add_note(&note("a", "x", 1)).unwrap();
    let change = UpdateNoteInput {
        title: " ".to_string(),
        text: "- New text".to_string(),
        meta: Some("m".to_string()),
        tags: None,
    };
    update_note(&mut storage, "a", &change).unwrap();
    let n = &storage.list_notes("p").unwrap()[0].note;
    assert_eq!((n.title.as_str(), n.text.as_str()), ("New text", "- New text"));
    assert_eq!(n.meta.as_deref(), Some("m"));
    let tagged = UpdateNoteInput {
        title: " kept ".to_string(),
        text: "x".to_string(),
        meta: None,
        tags: Some(words(&["t"])),
    };
    update_note(&mut storage, "a", &tagged).unwrap();
    assert_eq!(storage.list_notes("p").unwrap()[0].note.title, " kept ");
    let e = update_note(&mut storage, "none", &tagged).unwrap_err();
    assert_eq!((e.status, e.message.as_str()), (500, "Query returned no rows"));
}

#[test]
fn drafts_are_kept() {
    let mut storage = store();
    storage.add_note(&note("a", "x", 1)).unwrap();
    storage.add_note(&note("b", "y", 2)).unwrap();
    let ids = words(&["b", "none", "a"]);
    let notes = draft_notes(&storage, &ids).unwrap();
    let found: Vec<&str> = notes.iter().map(|n| n.id.as_str()).collect();
    assert_eq!(found, vec!["b", "a"]);
    assert_eq!(note_pairs(&notes)[0], ("title b".to_string(), "y".to_string()));
    assert_eq!(draft_title(Some("  "), &notes), "Draft: title b");
    assert_eq!(draft_title(Some(" T "), &notes), "T");
    assert_eq!(draft_title(None, &vec![]), "Draft");
    assert_eq!(
        draft_notes(&storage, &vec![]).unwrap_err().message,
        "note_ids is required"
    );
    assert_eq!(
        draft_notes(&storage, &words(&["none"])).unwrap_err().message,
        "no matching notes found"
    );
    let kept = words(&["b", "a"]);
    let draft = store_draft(&mut storage, "p", None, &notes, kept.clone(), "content").unwrap();
    assert_eq!(draft.draft.title, "Draft: title b");
    let read = get_draft(&storage, &draft.draft.id).unwrap();
    assert_eq!(read.note_ids, kept);
    assert_eq!(read.draft.content, "content");
    assert_eq!(get_draft(&storage, "none").unwrap_err().message, "draft not found");
    storage.update_draft_at(&draft.draft.id, "T2", "C2", 9).unwrap();
    storage.set_draft_notes(&draft.draft.id, &words(&["a"])).unwrap();
    let list = storage.list_drafts("p").unwrap();
    assert_eq!(list[0].draft.title, "T2");
    assert_eq!(list[0].note_ids, vec!["a"]);
    storage.delete_draft(&draft.draft.id).unwrap();
    assert_eq!(storage.list_drafts("p").unwrap().len(), 0);
    assert_eq!(storage.tables().draft_notes.len(), 0);
}

#[test]
fn draft_of_missing_notes_fails() {
    let mut storage = store();
    storage.add_note(&note("a", "x", 1)).unwrap();
    let notes = draft_notes(&storage, &words(&["a"])).unwrap();
    let e = store_draft(&mut storage, "p", None, &notes, words(&["a", "none"]), "c").unwrap_err();
    assert_eq!((e.status, e.message.as_str()), (500, "FOREIGN KEY constraint failed"));
}

fn wanted() -> CreateTranslationInput {
    CreateTranslationInput {
        note_id: Some("a".to_string()),
        source_text: " hello ".to_string(),
        target_language: "ja".to_string(),
        source_language: None,
        custom_instruction: None,
        custom_terms: None,
        model: None,
    }
}

#[test]
fn translations_are_kept() {
    let mut storage = store();
    storage.add_note(&note("a", "x", 1)).unwrap();
    let (request, context) = plan_translation(&storage, &wanted()).unwrap();
    assert_eq!(request.text, "hello");
    assert!(!request.use_linked_context);
    assert!(context.is_none());
    let kept = store_translation(&mut storage, &wanted(), "こんにちは".to_string()).unwrap();
    assert_eq!(kept.source_text, "hello");
    assert_eq!(storage.list_translations("p").unwrap().len(), 1);
    let mut blank = wanted();
    blank.source_text = " ".to_string();
    match plan_translation(&storage, &blank) {
        Err(e) => assert_eq!(e.message, "source text is required"),
        Ok(_) => panic!("there is nothing to translate"),
    }
    let mut stray = wanted();
    stray.note_id = Some("none".to_string());
    let e = store_translation(&mut storage, &stray, "x".to_string()).unwrap_err();
    assert_eq!(e.message, "FOREIGN KEY constraint failed");
    storage.clear_translations("p").unwrap();
    assert_eq!(storage.list_translations("p").unwrap().len(), 0);
    storage
        .add_translation(&Translation {
            id: "t".to_string(),
            note_id: None,
            source_text: "a".to_string(),
            translated_text: "b".to_string(),
            source_language: None,
            target_language: "en".to_string(),
            created_at: 1,
        })
        .unwrap();
    storage.delete_translation("t").unwrap();
    assert_eq!(storage.tables().translations.len(), 0);
}

#[test]
fn names_are_required() {
    assert_eq!(project_name(" a ").unwrap(), "a");
    assert_eq!(project_name(" ").unwrap_err().message, "project name is required");
    assert_eq!(session_title(" s ").unwrap(), "s");
    assert_eq!(session_title("").unwrap_err().message, "title is required");
}

#[test]
fn themes_are_normalized() {
    assert_eq!(normalize_theme_field(Some("  ".to_string())), None);
    assert_eq!(normalize_theme_field(Some(" x ".to_string())), Some("x".to_string()));
    let theme = |name: &str| ThemeInput {
        name: name.to_string(),
        description: Some(" d ".to_string()),
        transcription_prompt: Some(" ".to_string()),
        custom_terms: None,
        custom_instruction: Some("i".to_string()),
    };
    let kept = normalize_theme(theme(" n ")).unwrap();
    assert_eq!(kept.name, "n");
    assert_eq!(kept.description.as_deref(), Some("d"));
    assert_eq!(kept.transcription_prompt, None);
    assert_eq!(kept.custom_instruction.as_deref(), Some("i"));
    match normalize_theme(theme(" ")) {
        Err(e) => assert_eq!(e.message, "theme name is required"),
        Ok(_) => panic!("a name is required"),
    }
}

#[test]
fn live_sessions_are_kept() {
    let mut storage = store();
    let session = |id: &str, at: i64| LiveSession {
        id: id.to_string(),
        title: "s".to_string(),
        started_at: at,
        ended_at: None,
        source_language: None,
        target_language: None,
        duration_ms: 0,
        segment_count: 0,
    };
    let segment = |id: &str, sequence: i64| LiveSegment {
        id: id.to_string(),
        session_id: "s1".to_string(),
        sequence,
        start_ms: 0,
        source_text: id.to_string(),
        translated_text: None,
    };
    storage
        .save_live_session(&session("s1", 1), &vec![segment("y", 2), segment("x", 1)])
        .unwrap();
    storage.save_live_session(&session("s2", 5), &vec![]).unwrap();
    let list = storage.list_live_sessions().unwrap();
    assert_eq!(list[0].id, "s2");
    assert_eq!(list[1].segment_count, 2);
    let detail = get_live_session(&storage, "s1").unwrap();
    let order: Vec<&str> = detail.segments.iter().map(|s| s.id.as_str()).collect();
    assert_eq!(order, vec!["x", "y"]);
    storage.rename_live_session("s1", "new").unwrap();
    assert_eq!(get_live_session(&storage, "s1").unwrap().session.title, "new");
    storage.delete_live_session("s1").unwrap();
    assert_eq!(
        get_live_session(&storage, "s1").unwrap_err().message,
        "session not found"
    );
    assert_eq!(storage.tables().segments.len(), 0);
}

#[test]
fn rows_are_taken_over() {
    let mut tables = Tables::new();
    tables.projects.push(Project {
        id: "p".to_string(),
        name: "n".to_string(),
        description: None,
        created_at: 0,
        updated_at: 0,
    });
    tables.notes.push(note("a", "x", 1));
    tables.tags.push(Tag {
        id: "t".to_string(),
        project_id: "p".to_string(),
        name: "red".to_string(),
    });
    tables.note_tags.push(NoteTag {
        note_id: "a".to_string(),
        tag_id: "t".to_string(),
    });
    assert!(tables.is_consistent());
    let storage = Storage::open_with(tables, true, "z".to_string(), 1).unwrap();
    assert_eq!(storage.list_projects().unwrap().len(), 1);
    assert_eq!(storage.list_notes("p").unwrap()[0].tags, vec!["red"]);
}

#[test]
fn reordering_changes_places_alone() {
    let mut storage = store();
    storage
        .create_project_with("q".to_string(), 5, "Work", None)
        .unwrap();
    for id in ["a", "b", "c"] {
        storage.add_note(&note(id, "x", 1)).unwrap();
    }
    let mut other = note("d", "y", 2);
    other.project_id = "q".to_string();
    storage.add_note(&other).unwrap();
    reorder_notes(&mut storage, "p", &words(&["b", "c", "a"])).unwrap();
    let notes = storage.list_notes("p").unwrap();
    for (k, id) in ["b", "c", "a"].iter().enumerate() {
        assert_eq!(notes[k].note.id, *id);
        assert_eq!(notes[k].note.position, k as i64);
        assert_eq!(notes[k].note.text, "x");
        assert_eq!(notes[k].note.updated_at, 1);
    }
    let others = storage.list_notes("q").unwrap();
    assert_eq!((others[0].note.position, others[0].note.text.as_str()), (0, "y"));
}

#[test]
fn other_notes_keep_their_tags() {
    let mut storage = store();
    for id in ["a", "b"] {
        storage.add_note(&note(id, "x", 1)).unwrap();
    }
    storage.set_note_tags("a", &words(&["red", "blue"])).unwrap();
    storage.set_note_tags("b", &words(&["red"])).unwrap();
    storage.set_note_tags("b", &words(&["green"])).unwrap();
    let notes = storage.list_notes("p").unwrap();
    assert_eq!((notes[1].note.id.as_str(), &notes[1].tags), ("a", &words(&["blue", "red"])));
    assert_eq!((notes[0].note.id.as_str(), &notes[0].tags), ("b", &words(&["green"])));
}

#[test]
fn graph_has_everything_once() {
    let mut storage = store();
    storage
        .create_project_with("q".to_string(), 5, "Work", None)
        .unwrap();
    for id in ["a", "b", "c"] {
        storage.add_note(&note(id, "x", 1)).unwrap();
        storage.set_note_tags(id, &words(&["a", "t"])).unwrap();
    }
    let mut far = note("d", "y", 2);
    far.project_id = "q".to_string();
    storage.add_note(&far).unwrap();
    storage.set_note_parent_at("c", Some("b"), 2).unwrap();
    storage.set_note_parent_at("a", Some("d"), 2).unwrap();
    storage.add_note_link_with("l".to_string(), 1, "a", "b", None).unwrap();
    storage.add_note_link_with("m".to_string(), 1, "a", "d", None).unwrap();
    let graph = storage.graph("p").unwrap();
    let mut ids: Vec<&str> = graph.nodes.iter().map(|n| n.id.as_str()).collect();
    ids.sort();
    assert_eq!(ids, vec!["note:a", "note:b", "note:c", "project:p", "tag:a", "tag:t"]);
    for (id, from) in [("a", "project:p"), ("b", "project:p"), ("c", "note:b")] {
        let ways: Vec<&str> = graph
            .edges
            .iter()
            .filter(|e| e.target == format!("note:{}", id))
            .filter(|e| e.kind == "contains" || e.kind == "parent")
            .map(|e| e.source.as_str())
            .collect();
        assert_eq!(ways, vec![from]);
    }
    let links: Vec<Option<&str>> = graph
        .edges
        .iter()
        .filter(|e| e.kind == "link")
        .map(|e| e.id.as_deref())
        .collect();
    assert_eq!(links, vec![Some("l")]);
}
