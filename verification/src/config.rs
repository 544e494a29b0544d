//! The settings that the manifest declares.

use crate::document::{clone_opt, opt_text};
use crate::files::{join, join_path, stands_before, text_before};
use crate::policy::Policy;
use crate::text::{chars_of, same_text};
use vstd::prelude::*;

verus! {

/// One extension as the manifest pins it.
#[derive(Debug, PartialEq, Eq)]
pub struct ExtensionSpec {
    /// The exact version that the extension has to declare.
    pub version: String,
    /// Whether it is loaded.
    pub enabled: bool,
    /// Its file, if it is not at the usual place.
    pub source: Option<String>,
}

/// The contents of an [`ExtensionSpec`].
pub struct Pin {
    /// The exact version.
    pub version: Seq<char>,
    /// Whether it is loaded.
    pub enabled: bool,
    /// Its file, if it is not at the usual place.
    pub source: Option<Seq<char>>,
}

impl View for ExtensionSpec {
    type V = Pin;

    open spec fn view(&self) -> Pin {
        Pin { version: self.version@, enabled: self.enabled, source: opt_text(self.source) }
    }
}

impl Clone for ExtensionSpec {
    fn clone(&self) -> (r: Self)
        ensures
            r@ == self@,
    {
        ExtensionSpec {
            version: self.version.clone(),
            enabled: self.enabled,
            source: clone_opt(&self.source),
        }
    }
}

impl Default for ExtensionSpec {
    fn default() -> (r: Self)
        ensures
            r@ == (Pin { version: Seq::empty(), enabled: true, source: None }),
    {
        ExtensionSpec { version: String::new(), enabled: true, source: None }
    }
}

/// A path seen from a directory: an absolute path stands for itself.
pub open spec fn seen_from(dir: Seq<char>, path: Seq<char>) -> Seq<char> {
    if path.len() > 0 && path[0] == '/' {
        path
    } else {
        join(dir, path)
    }
}

/// The file of an extension.
pub open spec fn extension_file(pin: Pin, name: Seq<char>, base_dir: Seq<char>) -> Seq<char> {
    match pin.source {
        Some(source) => seen_from(base_dir, source),
        None => seen_from(join(base_dir, "extensions"@), name + ".scm"@),
    }
}

/// A path seen from a directory.
fn resolve_path(dir: &str, path: &str) -> (r: String)
    ensures
        r@ == seen_from(dir@, path@),
{
    if path.unicode_len() > 0 && path.get_char(0) == '/' {
        path.to_owned()
    } else {
        join_path(dir, path)
    }
}

impl ExtensionSpec {
    /// The file of the extension `name`, seen from the directory of the manifest.
    pub fn resolve(&self, name: &str, base_dir: &str) -> (r: String)
        ensures
            r@ == extension_file(self@, name@, base_dir@),
    {
        match &self.source {
            Some(source) => resolve_path(base_dir, source.as_str()),
            None => {
                let mut file = name.to_owned();
                file.append(".scm");
                resolve_path(join_path(base_dir, "extensions").as_str(), file.as_str())
            },
        }
    }
}

/// An extension under its name.
pub struct Pinned {
    /// The name.
    pub name: Seq<char>,
    /// What is pinned.
    pub pin: Pin,
}

/// Whether the names ascend, so that each is there once.
pub open spec fn ascending(es: Seq<Pinned>) -> bool {
    forall|i: int, j: int|
        0 <= i < j < es.len() ==> text_before((#[trigger] es[i]).name, (#[trigger] es[j]).name)
}

/// The extensions with one more, at its place in the order; one of the same name is replaced.
pub open spec fn with_pinned(es: Seq<Pinned>, e: Pinned) -> Seq<Pinned>
    decreases es.len(),
{
    if es.len() == 0 {
        seq![e]
    } else if text_before(es[0].name, e.name) {
        seq![es[0]] + with_pinned(es.drop_first(), e)
    } else if es[0].name == e.name {
        es.update(0, e)
    } else {
        seq![e] + es
    }
}

/// The extension of a name, if there is one.
pub open spec fn pinned_as(es: Seq<Pinned>, name: Seq<char>) -> Option<Pin>
    decreases es.len(),
{
    if es.len() == 0 {
        None
    } else if es[0].name == name {
        Some(es[0].pin)
    } else {
        pinned_as(es.drop_first(), name)
    }
}

/// The extensions that are loaded, in order.
pub open spec fn enabled_of(es: Seq<Pinned>) -> Seq<Pinned>
    decreases es.len(),
{
    if es.len() == 0 {
        Seq::empty()
    } else if es.last().pin.enabled {
        enabled_of(es.drop_last()).push(es.last())
    } else {
        enabled_of(es.drop_last())
    }
}

/// Of two texts, one stands before the other or they are equal, and only one of these.
proof fn lemma_text_order(a: Seq<char>, b: Seq<char>)
    ensures
        text_before(a, b) || a == b || text_before(b, a),
        !(text_before(a, b) && text_before(b, a)),
        a == b ==> !text_before(a, b),
    decreases a.len(),
{
    if a.len() > 0 && b.len() > 0 && a[0] == b[0] {
        lemma_text_order(a.drop_first(), b.drop_first());
        if a.drop_first() == b.drop_first() {
            assert(a =~= seq![a[0]] + a.drop_first());
            assert(b =~= seq![b[0]] + b.drop_first());
        }
    } else if a.len() == 0 && b.len() == 0 {
        assert(a =~= b);
    }
}

/// The order of texts is transitive.
proof fn lemma_text_trans(a: Seq<char>, b: Seq<char>, c: Seq<char>)
    requires
        text_before(a, b),
        text_before(b, c),
    ensures
        text_before(a, c),
    decreases a.len(),
{
    if a.len() > 0 && b.len() > 0 && c.len() > 0 && a[0] == b[0] && b[0] == c[0] {
        lemma_text_trans(a.drop_first(), b.drop_first(), c.drop_first());
    }
}

/// Where a new extension goes: behind those whose names stand before its own.
proof fn lemma_with_pinned(es: Seq<Pinned>, e: Pinned, i: int)
    requires
        0 <= i <= es.len(),
        forall|k: int| 0 <= k < i ==> text_before((#[trigger] es[k]).name, e.name),
        i < es.len() ==> !text_before(es[i].name, e.name),
    ensures
        with_pinned(es, e) == (if i < es.len() && es[i].name == e.name {
            es.update(i, e)
        } else {
            es.insert(i, e)
        }),
    decreases i,
{
    if i > 0 {
        let rest = es.drop_first();
        assert forall|k: int| 0 <= k < i - 1 implies text_before(
            (#[trigger] rest[k]).name,
            e.name,
        ) by {
            assert(rest[k] == es[k + 1]);
        }
        lemma_with_pinned(rest, e, i - 1);
        assert(text_before(es[0].name, e.name));
        if i < es.len() && es[i].name == e.name {
            assert(seq![es[0]] + rest.update(i - 1, e) =~= es.update(i, e));
        } else {
            assert(seq![es[0]] + rest.insert(i - 1, e) =~= es.insert(i, e));
        }
    } else if es.len() == 0 {
        assert(seq![e] =~= es.insert(0, e));
    } else if es[0].name != e.name {
        assert(seq![e] + es =~= es.insert(0, e));
    }
}

/// Adding keeps the names ascending.
proof fn lemma_stays_ascending(es: Seq<Pinned>, e: Pinned, i: int)
    requires
        ascending(es),
        0 <= i <= es.len(),
        forall|k: int| 0 <= k < i ==> text_before((#[trigger] es[k]).name, e.name),
        i < es.len() ==> !text_before(es[i].name, e.name),
    ensures
        ascending(
            if i < es.len() && es[i].name == e.name {
                es.update(i, e)
            } else {
                es.insert(i, e)
            },
        ),
{
    if i < es.len() && es[i].name == e.name {
        let r = es.update(i, e);
        assert forall|a: int, b: int| 0 <= a < b < r.len() implies text_before(
            (#[trigger] r[a]).name,
            (#[trigger] r[b]).name,
        ) by {
            assert(text_before(es[a].name, es[b].name));
        }
    } else {
        let r = es.insert(i, e);
        assert forall|a: int, b: int| 0 <= a < b < r.len() implies text_before(
            (#[trigger] r[a]).name,
            (#[trigger] r[b]).name,
        ) by {
            if i < es.len() {
                lemma_text_order(es[i].name, e.name);
            }
            if a < i && b == i {
                assert(text_before(es[a].name, e.name));
            } else if a == i {
                if b - 1 > i {
                    assert(text_before(es[i].name, es[b - 1].name));
                    lemma_text_trans(e.name, es[i].name, es[b - 1].name);
                }
            } else if a < i && b > i {
                assert(text_before(es[a].name, es[b - 1].name));
            } else if a < i {
                assert(text_before(es[a].name, es[b].name));
            } else {
                assert(text_before(es[a - 1].name, es[b - 1].name));
            }
        }
    }
}

/// The pinned extensions by name, in the order of the names.
#[derive(Debug, PartialEq, Eq)]
pub struct Extensions {
    entries: Vec<(String, ExtensionSpec)>,
}

/// The contents of a list of extensions.
pub open spec fn pinned_all(v: Seq<(String, ExtensionSpec)>) -> Seq<Pinned> {
    v.map_values(|e: (String, ExtensionSpec)| Pinned { name: e.0@, pin: e.1@ })
}

impl View for Extensions {
    type V = Seq<Pinned>;

    closed spec fn view(&self) -> Seq<Pinned> {
        pinned_all(self.entries@)
    }
}

impl Default for Extensions {
    fn default() -> (r: Self)
        ensures
            r@ == Seq::<Pinned>::empty(),
    {
        Extensions::new()
    }
}

impl Extensions {
    #[verifier::type_invariant]
    spec fn inv(self) -> bool {
        ascending(self@)
    }

    /// No extensions.
    pub fn new() -> (r: Self)
        ensures
            r@ == Seq::<Pinned>::empty(),
    {
        let entries: Vec<(String, ExtensionSpec)> = Vec::new();
        assert(pinned_all(entries@) =~= Seq::empty());
        Extensions { entries }
    }

    /// How many extensions there are.
    pub fn len(&self) -> (r: usize)
        ensures
            r == self@.len(),
    {
        self.entries.len()
    }

    /// Whether there are none.
    pub fn is_empty(&self) -> (r: bool)
        ensures
            r == (self@.len() == 0),
    {
        self.entries.len() == 0
    }

    /// The extension `name`, if it is pinned.
    pub fn get(&self, name: &str) -> (r: Option<&ExtensionSpec>)
        ensures
            match r {
                Some(spec) => pinned_as(self@, name@) == Some(spec@),
                None => pinned_as(self@, name@) is None,
            },
    {
        let mut i: usize = 0;
        assert(self@.skip(0) =~= self@);
        while i < self.entries.len()
            invariant
                i <= self.entries@.len(),
                self@.len() == self.entries@.len(),
                pinned_as(self@, name@) == pinned_as(self@.skip(i as int), name@),
            decreases self.entries@.len() - i,
        {
            assert(self@.skip(i as int)[0] == self@[i as int]);
            if same_text(self.entries[i].0.as_str(), name) {
                return Some(&self.entries[i].1);
            }
            assert(self@.skip(i as int).drop_first() =~= self@.skip(i + 1));
            i += 1;
        }
        None
    }

    /// The extensions with `spec` pinned under `name`, in place of what was.
    pub fn with(self, name: &str, spec: ExtensionSpec) -> (r: Self)
        ensures
            r@ == with_pinned(self@, (Pinned { name: name@, pin: spec@ })),
    {
        proof {
            use_type_invariant(&self);
        }
        let mut entries = self.entries;
        let key = chars_of(name);
        let ghost es = pinned_all(entries@);
        let ghost e = Pinned { name: name@, pin: spec@ };
        let mut i: usize = 0;
        while i < entries.len() && stands_before(chars_of(entries[i].0.as_str()).as_slice(), key.as_slice())
            invariant
                i <= entries@.len(),
                es == pinned_all(entries@),
                key@ == e.name,
                forall|k: int| 0 <= k < i ==> text_before((#[trigger] es[k]).name, e.name),
            decreases entries@.len() - i,
        {
            i += 1;
        }
        proof {
            lemma_with_pinned(es, e, i as int);
            lemma_stays_ascending(es, e, i as int);
        }
        if i < entries.len() && same_text(entries[i].0.as_str(), name) {
            entries.set(i, (name.to_owned(), spec));
            assert(pinned_all(entries@) =~= es.update(i as int, e));
        } else {
            entries.insert(i, (name.to_owned(), spec));
            assert(pinned_all(entries@) =~= es.insert(i as int, e));
        }
        Extensions { entries }
    }
}

/// The settings of the agent's provider. The API key is not among them: it comes from the
/// environment.
#[derive(Clone, Debug, PartialEq, Eq)]
pub struct AgentConfig {
    /// The model that is asked for.
    pub model: String,
    /// The server.
    pub base_url: String,
}

impl Default for AgentConfig {
    fn default() -> (r: Self)
        ensures
            r.model@ == "qwen2.5-coder"@,
            r.base_url@ == "http://localhost:11434/v1"@,
    {
        AgentConfig {
            model: "qwen2.5-coder".to_owned(),
            base_url: crate::http::default_base_url().to_owned(),
        }
    }
}

/// The settings.
#[derive(Debug, PartialEq, Eq)]
pub struct Config {
    /// The colours.
    pub theme: String,
    /// The keybinding profile.
    pub keymap: String,
    /// The indent width as it is written; [`Config::tab_width`] is the one to use.
    pub tab_width: usize,
    /// The pinned extensions.
    pub extensions: Extensions,
    /// What the agent may do.
    pub seraph: Policy,
    /// The agent's provider.
    pub agent: AgentConfig,
}

impl Config {
    /// Whether these are the settings without a manifest.
    pub open spec fn is_default(self) -> bool {
        &&& self.theme@ == "steelbore"@
        &&& self.keymap@ == "cua"@
        &&& self.tab_width == 4
        &&& self.extensions@.len() == 0
        &&& self.seraph.shell_allowlist@.len() == 0
        &&& self.seraph.network_allowlist@.len() == 0
        &&& self.seraph.edits_need_approval
        &&& self.agent.model@ == "qwen2.5-coder"@
        &&& self.agent.base_url@ == "http://localhost:11434/v1"@
    }
}

impl Default for Config {
    fn default() -> (r: Self)
        ensures
            r.is_default(),
    {
        Config {
            theme: "steelbore".to_owned(),
            keymap: "cua".to_owned(),
            tab_width: 4,
            extensions: Extensions::new(),
            seraph: Policy::default(),
            agent: AgentConfig::default(),
        }
    }
}

/// The manifest as the user keeps it: below the configuration directory, which is in the home
/// directory if it is not set.
pub open spec fn manifest_file(config: Option<Seq<char>>, home: Option<Seq<char>>) -> Option<
    Seq<char>,
> {
    match config {
        Some(config) => Some(join(join(config, "majestic"@), "majestic.ncl"@)),
        None => match home {
            Some(home) => Some(
                join(join(join(home, ".config"@), "majestic"@), "majestic.ncl"@),
            ),
            None => None,
        },
    }
}

/// The contents of an optional text.
pub open spec fn opt_str(s: Option<&str>) -> Option<Seq<char>> {
    match s {
        Some(s) => Some(s@),
        None => None,
    }
}

/// A place where a manifest may be, and whether there is a file.
#[derive(Clone, Debug, PartialEq, Eq)]
pub struct Candidate {
    /// The path.
    pub path: String,
    /// Whether there is a file at that path.
    pub is_file: bool,
}

/// The path of a candidate that is a file.
pub open spec fn found(c: Option<Candidate>) -> Option<Seq<char>> {
    match c {
        Some(c) if c.is_file => Some(c.path@),
        _ => None,
    }
}

impl Config {
    /// The indent width, between 1 and 16 whatever is written.
    pub fn tab_width(&self) -> (r: usize)
        ensures
            r == (if self.tab_width < 1 {
                1
            } else if self.tab_width > 16 {
                16
            } else {
                self.tab_width as int
            }),
    {
        if self.tab_width < 1 {
            1
        } else if self.tab_width > 16 {
            16
        } else {
            self.tab_width
        }
    }

    /// The extensions that are loaded, in the order of their names.
    pub fn enabled_extensions(&self) -> (r: Vec<(String, ExtensionSpec)>)
        ensures
            pinned_all(r@) == enabled_of(self.extensions@),
    {
        let all = &self.extensions.entries;
        let ghost es = self.extensions@;
        let mut r: Vec<(String, ExtensionSpec)> = Vec::new();
        let mut i: usize = 0;
        assert(pinned_all(r@) =~= enabled_of(es.take(0)));
        while i < all.len()
            invariant
                i <= all@.len(),
                es == pinned_all(all@),
                pinned_all(r@) == enabled_of(es.take(i as int)),
            decreases all@.len() - i,
        {
            let ghost before = r@;
            assert(es.take(i + 1).drop_last() =~= es.take(i as int));
            if all[i].1.enabled {
                r.push((all[i].0.clone(), all[i].1.clone()));
                assert(pinned_all(r@) =~= pinned_all(before).push(es[i as int]));
            }
            i += 1;
        }
        assert(es.take(i as int) =~= es);
        r
    }

    /// The manifest as the user keeps it, by the configuration directory and the home directory.
    pub fn default_path(config: Option<&str>, home: Option<&str>) -> (r: Option<String>)
        ensures
            opt_text(r) == manifest_file(opt_str(config), opt_str(home)),
    {
        let base = match config {
            Some(config) => config.to_owned(),
            None => match home {
                Some(home) => join_path(home, ".config"),
                None => {
                    return None;
                },
            },
        };
        let dir = join_path(base.as_str(), "majestic");
        Some(join_path(dir.as_str(), "majestic.ncl"))
    }

    /// The manifest to read, if there is one: the one that the environment names, else the one of
    /// the project, else the one of the user.
    pub fn discover(
        explicit: &Option<Candidate>,
        local: &Option<Candidate>,
        user: &Option<Candidate>,
    ) -> (r: Option<String>)
        ensures
            opt_text(r) == (match found(*explicit) {
                Some(path) => Some(path),
                None => match found(*local) {
                    Some(path) => Some(path),
                    None => found(*user),
                },
            }),
    {
        if let Some(c) = explicit {
            if c.is_file {
                return Some(c.path.clone());
            }
        }
        if let Some(c) = local {
            if c.is_file {
                return Some(c.path.clone());
            }
        }
        if let Some(c) = user {
            if c.is_file {
                return Some(c.path.clone());
            }
        }
        None
    }

    /// The program that evaluates to the settings: the user's manifest merged onto the schema.
    pub fn program(schema: &str, source: &str) -> (r: String)
        ensures
            r@ == "("@ + schema@ + ")\n& (\n"@ + source@ + "\n)"@,
    {
        let mut r = "(".to_owned();
        r.append(schema);
        r.append(")\n& (\n");
        r.append(source);
        r.append("\n)");
        r
    }
}

/// The manifest that is written when the user picks a keybinding profile for the first time.
pub fn keymap_manifest(keymap: &str) -> (r: String)
    ensures
        r@ == "# Majestic manifest — created by the first-run profile selector.\n{\n  keymap = \""@
            + keymap@ + "\",\n}\n"@,
{
    let mut r = "# Majestic manifest — created by the first-run profile selector.\n{\n  keymap = \"".to_owned();
    r.append(keymap);
    r.append("\",\n}\n");
    r
}

/// Why the settings could not be had.
#[derive(Clone, Debug, PartialEq, Eq)]
pub enum ConfigError {
    /// The manifest could not be read.
    Read(String),
    /// The manifest is not valid.
    Evaluate(String),
}

impl Config {
    /// The settings to start with: those of the manifest, or in safe mode, with a word on what is
    /// wrong with it, the defaults. Without a manifest they are the defaults too.
    pub fn or_default(loaded: Option<Result<Config, ConfigError>>) -> (r: (Config, Option<String>))
        ensures
            match loaded {
                Some(Ok(config)) => r.0 == config && r.1 is None,
                Some(Err(error)) => r.0.is_default() && r.1 is Some && r.1->0@ == error.words(),
                None => r.0.is_default() && r.1 is None,
            },
    {
        match loaded {
            Some(Ok(config)) => (config, None),
            Some(Err(error)) => (Config::default(), Some(error.message())),
            None => (Config::default(), None),
        }
    }
}

impl ConfigError {
    /// The error in words.
    pub open spec fn words(self) -> Seq<char> {
        match self {
            ConfigError::Read(error) => "cannot read configuration: "@ + error@,
            ConfigError::Evaluate(message) => "invalid configuration:\n"@ + message@,
        }
    }

    /// The error in words.
    pub fn message(&self) -> (r: String)
        ensures
            r@ == self.words(),
    {
        match self {
            ConfigError::Read(error) => {
                let mut r = "cannot read configuration: ".to_owned();
                r.append(error.as_str());
                r
            },
            ConfigError::Evaluate(message) => {
                let mut r = "invalid configuration:\n".to_owned();
                r.append(message.as_str());
                r
            },
        }
    }
}

/// What is pinned under a name is what is found under it, and other names are not touched.
pub proof fn law_pinned_is_found(es: Seq<Pinned>, e: Pinned, name: Seq<char>)
    requires
        ascending(es),
    ensures
        pinned_as(with_pinned(es, e), name) == (if name == e.name {
            Some(e.pin)
        } else {
            pinned_as(es, name)
        }),
    decreases es.len(),
{
    let r = with_pinned(es, e);
    if es.len() == 0 {
        assert(r.drop_first() =~= Seq::empty());
    } else if text_before(es[0].name, e.name) {
        lemma_text_order(es[0].name, e.name);
        assert(ascending(es.drop_first())) by {
            let rest = es.drop_first();
            assert forall|i: int, j: int| 0 <= i < j < rest.len() implies text_before(
                (#[trigger] rest[i]).name,
                (#[trigger] rest[j]).name,
            ) by {
                assert(text_before(es[i + 1].name, es[j + 1].name));
            }
        }
        law_pinned_is_found(es.drop_first(), e, name);
        assert(r.drop_first() =~= with_pinned(es.drop_first(), e));
    } else if es[0].name == e.name {
        assert(r.drop_first() =~= es.drop_first());
    } else {
        assert(r.drop_first() =~= es);
    }
}

/// The extensions that are loaded are in the order of their names too, and each of them is
/// enabled.
pub proof fn law_loading_order(es: Seq<Pinned>)
    requires
        ascending(es),
    ensures
        ascending(enabled_of(es)),
        forall|i: int|
            0 <= i < enabled_of(es).len() ==> (#[trigger] enabled_of(es)[i]).pin.enabled
                && es.contains(enabled_of(es)[i]),
    decreases es.len(),
{
    if es.len() > 0 {
        let front = es.drop_last();
        assert forall|i: int, j: int| 0 <= i < j < front.len() implies text_before(
            (#[trigger] front[i]).name,
            (#[trigger] front[j]).name,
        ) by {
            assert(text_before(es[i].name, es[j].name));
        }
        law_loading_order(front);
        let head = enabled_of(front);
        let all = enabled_of(es);
        assert forall|i: int| 0 <= i < head.len() implies es.contains(#[trigger] head[i])
            && text_before(head[i].name, es.last().name) by {
            let k = choose|k: int| 0 <= k < front.len() && front[k] == head[i];
            assert(es[k] == head[i]);
            assert(text_before(es[k].name, es[es.len() - 1].name));
        }
        assert(es[es.len() - 1] == es.last());
        assert forall|i: int| 0 <= i < all.len() implies (#[trigger] all[i]).pin.enabled
            && es.contains(all[i]) by {
            if i < head.len() {
                assert(all[i] == head[i]);
            }
        }
        assert forall|i: int, j: int| 0 <= i < j < all.len() implies text_before(
            (#[trigger] all[i]).name,
            (#[trigger] all[j]).name,
        ) by {
            if j < head.len() {
                assert(text_before(head[i].name, head[j].name));
            } else {
                assert(all[i] == head[i]);
            }
        }
    }
}

/// An extension with a source is found there: as it stands where it is absolute, from the directory of
/// the manifest otherwise. One without is found by its name below the directory for extensions.
pub proof fn law_extensions_are_found(pin: Pin, name: Seq<char>, dir: Seq<char>, source: Seq<char>)
    requires
        dir.len() > 0,
        dir.last() != '/',
        name.len() > 0,
        name[0] != '/',
    ensures
        pin.source == Some(seq!['/'] + source) ==> extension_file(pin, name, dir) == seq!['/'] + source,
        pin.source == Some(source) && source.len() > 0 && source[0] != '/' ==> extension_file(pin, name, dir) == dir
            + seq!['/'] + source,
        pin.source is None ==> extension_file(pin, name, dir) == dir + "/extensions/"@ + name + ".scm"@,
{
    reveal_strlit("extensions");
    reveal_strlit("/extensions/");
    reveal_strlit(".scm");
    assert((seq!['/'] + source)[0] == '/');
    assert("extensions"@.len() == 10);
    let e = join(dir, "extensions"@);
    assert(e =~= dir + seq!['/'] + "extensions"@);
    assert(e.last() == "extensions"@[9]);
    let file = name + ".scm"@;
    assert(file[0] == name[0]);
    assert(dir.push('/') + source =~= dir + seq!['/'] + source);
    assert(e.push('/') + file =~= dir + "/extensions/"@ + name + ".scm"@) by {
        assert("/extensions/"@ =~= seq!['/'] + "extensions"@ + seq!['/']);
    }
}

/// The manifest lies in the configuration directory, or in the home directory where that is not set,
/// and there is none where neither is.
pub proof fn law_manifest_is_found(config: Seq<char>, home: Seq<char>, any: Option<Seq<char>>)
    requires
        config.len() > 0,
        config.last() != '/',
        home.len() > 0,
        home.last() != '/',
    ensures
        manifest_file(Some(config), any) == Some(config + "/majestic/majestic.ncl"@),
        manifest_file(None, Some(home)) == Some(home + "/.config/majestic/majestic.ncl"@),
        manifest_file(None, None) is None,
{
    reveal_strlit("majestic");
    reveal_strlit("majestic.ncl");
    reveal_strlit(".config");
    reveal_strlit("/majestic/majestic.ncl");
    reveal_strlit("/.config/majestic/majestic.ncl");
    assert("majestic"@.len() == 8);
    assert(".config"@.len() == 7);
    let a = join(config, "majestic"@);
    assert(a =~= config + seq!['/'] + "majestic"@);
    assert(a.last() == "majestic"@[7]);
    assert(join(a, "majestic.ncl"@) =~= config + "/majestic/majestic.ncl"@);
    let b = join(home, ".config"@);
    assert(b =~= home + seq!['/'] + ".config"@);
    assert(b.last() == ".config"@[6]);
    let c = join(b, "majestic"@);
    assert(c =~= b + seq!['/'] + "majestic"@);
    assert(c.last() == "majestic"@[7]);
    assert(join(c, "majestic.ncl"@) =~= home + "/.config/majestic/majestic.ncl"@);
}

} // verus!
