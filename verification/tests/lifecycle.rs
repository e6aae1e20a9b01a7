use novelsaga::config::{FmtConfig, NovelSagaConfig};
use novelsaga::server::{Server, ServerState};
use novelsaga::store::DocumentStore;

#[test]
fn document_lifecycle() {
    let mut s = Server::new();
    let u = "file:///d/t.txt".to_string();
    s.did_open(&u, "x".to_string());
    assert_eq!(s.documents.get(&u), Some(&"x".to_string()));
    s.did_change(&u, "y".to_string());
    assert_eq!(s.documents.get(&u), Some(&"y".to_string()));
    s.did_close(&u);
    assert_eq!(s.documents.get(&u), None);
}

#[test]
fn store_open_replace_close() {
    let mut store = DocumentStore::new();
    let u = "u1".to_string();
    let v = "u2".to_string();
    store.open(&u, "one".to_string());
    store.open(&v, "two".to_string());
    store.replace(&u, "three".to_string());
    assert_eq!(store.get(&u), Some(&"three".to_string()));
    assert_eq!(store.get(&v), Some(&"two".to_string()));
    store.close(&u);
    assert_eq!(store.get(&u), None);
    assert_eq!(store.get(&v), Some(&"two".to_string()));
}

#[test]
fn formatting_unknown_document_returns_no_edit() {
    let s = Server::new();
    let edit = s.formatting(&"file:///no/such".to_string(), &"/no/such".to_string(), None);
    assert!(edit.is_none());
}

#[test]
fn formatting_returns_a_full_document_edit() {
    let mut s = Server::new();
    let u = "file:///d/a.txt".to_string();
    let p = "/d/a.txt".to_string();
    s.did_open(&u, "Hello世界\nsecond\n".to_string());
    let edit = s.formatting(&u, &p, None).unwrap();
    assert_eq!(edit.start_line, 0);
    assert_eq!(edit.start_character, 0);
    assert_eq!(edit.end_line, 1);
    assert_eq!(edit.end_character, 6);
    assert_eq!(edit.new_text, "    Hello 世界\n\n    second");
}

#[test]
fn formatting_suppresses_noop_edit() {
    let mut s = Server::new();
    let u = "file:///d/b.txt".to_string();
    let p = "/d/b.txt".to_string();
    s.did_open(&u, "    already 好 formatted".to_string());
    assert!(s.formatting(&u, &p, None).is_none());
}

#[test]
fn formatting_uses_the_given_configuration() {
    let mut s = Server::new();
    let u = "file:///d/c.txt".to_string();
    let p = "/d/c.txt".to_string();
    s.did_open(&u, "a\nb\n".to_string());
    let c = NovelSagaConfig {
        fmt: FmtConfig {
            indent_spaces: 1,
            blank_lines_between_paragraphs: 0,
            markdown_only_use_pangu: true,
        },
    };
    let edit = s.formatting(&u, &p, Some(&c)).unwrap();
    assert_eq!(edit.new_text, " a\n b");
}

#[test]
fn markdown_request_with_unchanged_text_yields_no_edit() {
    let mut s = Server::new();
    let u = "file:///d/n.md".to_string();
    let p = "/d/n.md".to_string();
    s.did_open(&u, "# plain title\n\nbody\n".to_string());
    assert!(s.formatting(&u, &p, None).is_none());
}

#[test]
fn state_machine_is_monotonic() {
    let mut s = Server::new();
    assert_eq!(s.state, ServerState::Uninitialized);
    let caps = s.initialize();
    assert_eq!(s.state, ServerState::Initialized);
    assert!(caps.full_document_sync);
    assert!(caps.document_formatting);
    assert_eq!(caps.server_name, "NovelSaga Language Server");
    assert_eq!(caps.server_version, "0.1.0");
    s.shutdown();
    assert_eq!(s.state, ServerState::ShuttingDown);
    s.shutdown();
    assert_eq!(s.state, ServerState::ShuttingDown);
}

#[test]
fn default_configuration_values() {
    let c = NovelSagaConfig::default();
    assert_eq!(c.fmt.indent_spaces, 4);
    assert_eq!(c.fmt.blank_lines_between_paragraphs, 1);
    assert!(c.fmt.markdown_only_use_pangu);
}
