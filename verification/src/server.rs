//! The server facade: lifecycle state machine, document lifecycle handlers,
//! and the formatting request handler that ties resolution, the store and
//! the pipeline together.

use vstd::prelude::*;

use crate::config::default_config;
use crate::config::NovelSagaConfig;
use crate::formatter::format_spec;
use crate::formatter::formatter;
use crate::resolver::ConfigLoader;
use crate::store::DocumentStore;
use crate::text::lines_spec;
use crate::text::split_lines;

verus! {

/// Lifecycle state; transitions are one-directional.
#[derive(Clone, Copy, Debug, PartialEq, Eq, Structural)]
pub enum ServerState {
    Uninitialized,
    Initialized,
    ShuttingDown,
}

/// What `initialize` advertises: full-document synchronization and
/// document formatting, with the server's name and version.
pub struct Capabilities {
    pub full_document_sync: bool,
    pub document_formatting: bool,
    pub server_name: String,
    pub server_version: String,
}

/// A replacement of the whole document: a zero-based start and end
/// position, and the new text.
#[derive(Debug, Clone, PartialEq, Eq)]
pub struct DocumentEdit {
    pub start_line: usize,
    pub start_character: usize,
    pub end_line: usize,
    pub end_character: usize,
    pub new_text: String,
}

/// The line of the last position of `t`: its last line's index, or line 0
/// when there are no lines.
pub open spec fn full_range_end_line(t: Seq<char>) -> nat {
    if lines_spec(t).len() == 0 {
        0
    } else {
        (lines_spec(t).len() - 1) as nat
    }
}

/// The character column of the last position of `t`: the length of its
/// last line, or column 0 when there are no lines.
pub open spec fn full_range_end_char(t: Seq<char>) -> nat {
    if lines_spec(t).len() == 0 {
        0
    } else {
        lines_spec(t).last().len()
    }
}

/// The whole backend: lifecycle state, the open documents, and the
/// configuration loader with its cache.
pub struct Server {
    pub state: ServerState,
    pub documents: DocumentStore,
    pub loader: ConfigLoader,
}

impl Server {
    /// Both components satisfy their invariants.
    pub open spec fn wf(&self) -> bool {
        self.documents.wf() && self.loader.wf()
    }

    /// A fresh, uninitialized server with no documents and an empty cache.
    pub fn new() -> (r: Server)
        ensures
            r.wf(),
            r.state == ServerState::Uninitialized,
            r.documents@ == Map::<Seq<char>, Seq<char>>::empty(),
            r.loader@ == Map::<Seq<char>, NovelSagaConfig>::empty(),
    {
        Server { state: ServerState::Uninitialized, documents: DocumentStore::new(), loader: ConfigLoader::new() }
    }

    /// Move from `Uninitialized` to `Initialized` and advertise the
    /// capabilities: full-document sync and document formatting.
    pub fn initialize(&mut self) -> (r: Capabilities)
        requires
            old(self).wf(),
        ensures
            final(self).wf(),
            final(self).state == (if old(self).state == ServerState::Uninitialized {
                ServerState::Initialized
            } else {
                old(self).state
            }),
            final(self).documents@ == old(self).documents@,
            final(self).loader@ == old(self).loader@,
            r.full_document_sync,
            r.document_formatting,
            r.server_name@ == "NovelSaga Language Server"@,
            r.server_version@ == "0.1.0"@,
    {
        if self.state == ServerState::Uninitialized {
            self.state = ServerState::Initialized;
        }
        Capabilities {
            full_document_sync: true,
            document_formatting: true,
            server_name: String::from_str("NovelSaga Language Server"),
            server_version: String::from_str("0.1.0"),
        }
    }

    /// Move to `ShuttingDown`; idempotent thereafter.
    pub fn shutdown(&mut self)
        requires
            old(self).wf(),
        ensures
            final(self).wf(),
            final(self).state == ServerState::ShuttingDown,
            final(self).documents@ == old(self).documents@,
            final(self).loader@ == old(self).loader@,
    {
        self.state = ServerState::ShuttingDown;
    }

    /// A document was opened with this full text.
    pub fn did_open(&mut self, uri: &String, text: String)
        requires
            old(self).wf(),
        ensures
            final(self).wf(),
            final(self).documents@ == old(self).documents@.insert(uri@, text@),
            final(self).state == old(self).state,
            final(self).loader@ == old(self).loader@,
    {
        self.documents.open(uri, text);
    }

    /// A document changed: full-document sync, the new text replaces the
    /// old wholesale.
    pub fn did_change(&mut self, uri: &String, text: String)
        requires
            old(self).wf(),
        ensures
            final(self).wf(),
            final(self).documents@ == old(self).documents@.insert(uri@, text@),
            final(self).state == old(self).state,
            final(self).loader@ == old(self).loader@,
    {
        self.documents.replace(uri, text);
    }

    /// A document was closed and its text dropped.
    pub fn did_close(&mut self, uri: &String)
        requires
            old(self).wf(),
        ensures
            final(self).wf(),
            final(self).documents@ == old(self).documents@.remove(uri@),
            final(self).state == old(self).state,
            final(self).loader@ == old(self).loader@,
    {
        self.documents.close(uri);
    }

    /// Handle a formatting request for the document under `uri`, whose
    /// filesystem path is `path`; `config` is the configuration resolution's
    /// outcome, `None` falling back to the built-in defaults. Returns no
    /// edit for an unknown document, and none when formatting leaves the
    /// text unchanged; otherwise one whole-document replacement.
    pub fn formatting(&self, uri: &String, path: &String, config: Option<&NovelSagaConfig>) -> (r:
        Option<DocumentEdit>)
        requires
            self.wf(),
        ensures
            !self.documents@.contains_key(uri@) ==> r is None,
            self.documents@.contains_key(uri@) ==> ({
                let text = self.documents@[uri@];
                let cfg = match config {
                    Some(c) => *c,
                    None => default_config(),
                };
                let f = format_spec(cfg.fmt, text, path@);
                &&& f == text ==> r is None
                &&& f != text ==> match r {
                    Some(e) => e.new_text@ == f && e.start_line == 0 && e.start_character == 0
                        && e.end_line == full_range_end_line(text) && e.end_character
                        == full_range_end_char(text),
                    None => false,
                }
            }),
    {
        let content = match self.documents.get(uri) {
            Some(c) => c,
            None => {
                return None;
            },
        };
        let cfg = match config {
            Some(c) => *c,
            None => NovelSagaConfig::default(),
        };
        let formatted = formatter(&cfg, content.as_str(), path.as_str());
        if formatted.eq(content) {
            return None;
        }
        let lines = split_lines(content.as_str());
        let end_line = if lines.len() == 0 {
            0
        } else {
            lines.len() - 1
        };
        let end_character = if lines.len() == 0 {
            0
        } else {
            lines[lines.len() - 1].as_str().unicode_len()
        };
        Some(
            DocumentEdit {
                start_line: 0,
                start_character: 0,
                end_line,
                end_character,
                new_text: formatted,
            },
        )
    }
}

} // verus!
