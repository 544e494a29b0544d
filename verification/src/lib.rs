//! Majestic: the verified core of a keyboard-driven text editor and its governed agent.

pub mod agent;
pub mod agent_session;
pub mod bench;
pub mod buffer;
pub mod code_action;
pub mod completion;
pub mod config;
pub mod daemon;
pub mod decor;
pub mod diagnostic;
pub mod dispatch;
pub mod document;
pub mod editor;
pub mod editor_laws;
pub mod files;
pub mod finder;
pub mod fold;
pub mod fuzzy;
pub mod git;
pub mod git_panel;
pub mod governor;
pub mod hashline;
pub mod hover;
pub mod http;
pub mod info;
pub mod info_laws;
pub mod inlay;
pub mod json;
pub mod key;
pub mod keymap;
pub mod markdown;
pub mod markdown_laws;
pub mod occurrence;
pub mod paths;
pub mod policy;
pub mod popup;
pub mod preview;
pub mod profiles;
pub mod prompt;
pub mod provider;
pub mod references;
pub mod rename;
pub mod search;
pub mod selector;
pub mod session;
pub mod signature;
pub mod surface;
pub mod symbols;
pub mod syntax;
pub mod syntect_hl;
pub mod texinfo;
pub mod texinfo_block_laws;
pub mod texinfo_laws;
pub mod texinfo_name_laws;
pub mod text;
pub mod tools;
pub mod typeset;
pub mod whichkey;
pub mod workspace;
pub mod workspace_laws;
