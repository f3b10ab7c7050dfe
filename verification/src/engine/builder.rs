//! Putting an engine together.

use crate::error::Error;
use crate::ir::workspace::{kind_name, workspace_key, WorkspaceConfig};
use crate::names::{with_name, NameSet};
use crate::text::opt_text;
use vstd::prelude::*;

verus! {

/// The names of the plugins an engine knows.
#[derive(Debug)]
pub struct Registry {
    providers: NameSet,
    workspaces: NameSet,
    actions: NameSet,
}

/// The mathematical form of a [`Registry`].
#[verifier::ext_equal]
pub struct RegistryView {
    pub providers: Seq<Seq<char>>,
    pub workspaces: Seq<Seq<char>>,
    pub actions: Seq<Seq<char>>,
}

impl View for Registry {
    type V = RegistryView;

    closed spec fn view(&self) -> RegistryView {
        RegistryView {
            providers: self.providers@,
            workspaces: self.workspaces@,
            actions: self.actions@,
        }
    }
}

/// The built-in plugins. No workspace is among them: a registered one replaces the workspace that
/// a workflow's own settings describe.
pub open spec fn builtins() -> RegistryView {
    let none = Seq::<Seq<char>>::empty();
    RegistryView {
        providers: with_name(with_name(none, "codex"@), "copilot"@),
        workspaces: none,
        actions: with_name(
            with_name(with_name(with_name(none, "shell.exec"@), "git.commit"@), "git.push"@),
            "github.open_pr"@,
        ),
    }
}

impl Registry {
    /// The built-in plugins.
    pub fn with_builtins() -> (r: Self)
        ensures
            r@ == builtins(),
    {
        let mut r = Registry {
            providers: NameSet::new(),
            workspaces: NameSet::new(),
            actions: NameSet::new(),
        };
        r.register_provider("codex");
        r.register_provider("copilot");
        r.register_action("shell.exec");
        r.register_action("git.commit");
        r.register_action("git.push");
        r.register_action("github.open_pr");
        r
    }

    /// Adds a provider; one of the same name is replaced.
    pub fn register_provider(&mut self, name: &str)
        ensures
            final(self)@ == (RegistryView {
                providers: with_name(old(self)@.providers, name@),
                ..old(self)@
            }),
    {
        let _ = self.providers.insert(name.to_owned());
    }

    /// Adds a workspace kind; one of the same name is replaced.
    pub fn register_workspace(&mut self, name: &str)
        ensures
            final(self)@ == (RegistryView {
                workspaces: with_name(old(self)@.workspaces, name@),
                ..old(self)@
            }),
    {
        let _ = self.workspaces.insert(name.to_owned());
    }

    /// Adds an action; one of the same name is replaced.
    pub fn register_action(&mut self, name: &str)
        ensures
            final(self)@ == (RegistryView {
                actions: with_name(old(self)@.actions, name@),
                ..old(self)@
            }),
    {
        let _ = self.actions.insert(name.to_owned());
    }

    /// Whether a provider is registered.
    pub fn has_provider(&self, name: &str) -> (r: bool)
        ensures
            r == self@.providers.contains(name@),
    {
        self.providers.contains(name)
    }

    /// Whether a workspace kind is registered.
    pub fn has_workspace(&self, name: &str) -> (r: bool)
        ensures
            r == self@.workspaces.contains(name@),
    {
        self.workspaces.contains(name)
    }

    /// Whether an action is registered.
    pub fn has_action(&self, name: &str) -> (r: bool)
        ensures
            r == self@.actions.contains(name@),
    {
        self.actions.contains(name)
    }
}

/// Where the workspace of a run comes from.
#[derive(Debug)]
pub enum WorkspaceSource {
    /// The one registered for its kind.
    Registered,
    /// The built-in one that every run under this key shares.
    Shared(String),
}

/// Where the workspace that a workflow's settings describe comes from: a registered one replaces
/// the built-in one of its kind, and runs with the same settings share one built-in instance.
pub fn workspace_source(registry: &Registry, cfg: &WorkspaceConfig) -> (r: WorkspaceSource)
    ensures
        match r {
            WorkspaceSource::Registered => registry@.workspaces.contains(kind_name(*cfg)),
            WorkspaceSource::Shared(key) => {
                &&& !registry@.workspaces.contains(kind_name(*cfg))
                &&& key@ == workspace_key(*cfg)
            },
        },
{
    if registry.has_workspace(cfg.kind()) {
        WorkspaceSource::Registered
    } else {
        WorkspaceSource::Shared(cfg.cache_key())
    }
}

/// What an engine is made of: the plugins it knows, where its store is, and the repository it
/// provisions workspaces from.
#[derive(Debug)]
pub struct EngineSetup {
    pub registry: Registry,
    pub store: Option<String>,
    pub repo_root: String,
}

/// Wires plugins, a repository and a store into an engine.
#[derive(Debug)]
pub struct EngineBuilder {
    registry: Registry,
    store: Option<String>,
    repo_root: Option<String>,
}

/// The mathematical form of an [`EngineBuilder`].
#[verifier::ext_equal]
pub struct BuilderView {
    pub registry: RegistryView,
    pub store: Option<Seq<char>>,
    pub repo_root: Option<Seq<char>>,
}

impl View for EngineBuilder {
    type V = BuilderView;

    closed spec fn view(&self) -> BuilderView {
        BuilderView {
            registry: self.registry@,
            store: opt_text(self.store),
            repo_root: opt_text(self.repo_root),
        }
    }
}

impl EngineBuilder {
    /// A builder with the built-in plugins.
    pub fn new() -> (r: Self)
        ensures
            r@ == (BuilderView { registry: builtins(), store: None, repo_root: None }),
    {
        EngineBuilder { registry: Registry::with_builtins(), store: None, repo_root: None }
    }

    /// Sets the repository that workspaces are provisioned from; the current directory when it is
    /// not set.
    pub fn repo(self, repo_root: &str) -> (r: Self)
        ensures
            r@ == (BuilderView { repo_root: Some(repo_root@), ..self@ }),
    {
        let mut me = self;
        me.repo_root = Some(repo_root.to_owned());
        me
    }

    /// Sets where the durable store is. Without one, runs are not persisted.
    pub fn store(self, store: &str) -> (r: Self)
        ensures
            r@ == (BuilderView { store: Some(store@), ..self@ }),
    {
        let mut me = self;
        me.store = Some(store.to_owned());
        me
    }

    /// The registry, to add plugins to.
    pub fn registry_mut(&mut self) -> (r: &mut Registry)
        ensures
            (*r)@ == old(self)@.registry,
            final(self)@ == (BuilderView { registry: (*final(r))@, ..old(self)@ }),
    {
        &mut self.registry
    }

    /// What the engine is made of.
    pub fn build(self) -> (r: Result<EngineSetup, Error>)
        ensures
            r matches Ok(s) && s.registry@ == self@.registry && opt_text(s.store) == self@.store
                && s.repo_root@ == (match self@.repo_root {
                Some(p) => p,
                None => "."@,
            }),
    {
        let repo_root = match self.repo_root {
            Some(p) => p,
            None => ".".to_owned(),
        };
        Ok(EngineSetup { registry: self.registry, store: self.store, repo_root })
    }
}

} // verus!
