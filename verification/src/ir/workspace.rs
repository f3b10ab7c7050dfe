//! Workspace provisioning configuration.

use crate::json::{
    different_texts_are_quoted_differently, json_string, lemma_escaped_front, member_text,
    member_texts, object_text, quote_json, ObjectText,
};
use crate::text::{concat3, decimal, decimal_of, is_digit, joined, lemma_decimal, opt_text};
use vstd::prelude::*;

verus! {

/// How a run gets its working directory.
#[derive(Debug)]
pub enum WorkspaceConfig {
    /// One throwaway `git worktree` per run. The default.
    Worktree(WorktreeConfig),
    /// A pool of pre-cloned slots, claimed, released and reset between runs.
    SlotPool(SlotPoolConfig),
}

impl Default for WorkspaceConfig {
    fn default() -> (r: Self)
        ensures
            r == WorkspaceConfig::Worktree(WorktreeConfig { base: None }),
    {
        WorkspaceConfig::Worktree(WorktreeConfig { base: None })
    }
}

/// Configuration of the per-run worktree.
#[derive(Debug)]
pub struct WorktreeConfig {
    /// Base branch or ref the worktree is cut from. Defaults to the repository's `HEAD`.
    pub base: Option<String>,
}

/// Configuration of the slot pool.
#[derive(Debug)]
pub struct SlotPoolConfig {
    /// Number of clones in the pool.
    pub pool: u16,
    /// How a slot is reset before reuse.
    pub reset: ResetMode,
    /// Base branch or ref slots are cut from. Defaults to the repository's `HEAD`.
    pub base: Option<String>,
}

/// How a slot pool cleans a slot before reuse.
#[derive(Clone, Copy, Debug, PartialEq, Eq, Structural)]
pub enum ResetMode {
    /// `git reset --hard && git clean -fdx`. The default.
    GitClean,
    /// Clone again from origin.
    Reclone,
}

impl Default for ResetMode {
    fn default() -> (r: Self)
        ensures
            r == ResetMode::GitClean,
    {
        ResetMode::GitClean
    }
}

/// The registry key of a workspace kind.
pub open spec fn kind_name(cfg: WorkspaceConfig) -> Seq<char> {
    match cfg {
        WorkspaceConfig::Worktree(_) => "worktree"@,
        WorkspaceConfig::SlotPool(_) => "slot_pool"@,
    }
}

/// The wire name of a reset mode.
pub open spec fn reset_name(m: ResetMode) -> Seq<char> {
    match m {
        ResetMode::GitClean => "git_clean"@,
        ResetMode::Reclone => "reclone"@,
    }
}

/// The members with the base, if one is set.
pub open spec fn with_base(
    o: Seq<(Seq<char>, Seq<char>)>,
    base: Option<Seq<char>>,
) -> Seq<(Seq<char>, Seq<char>)> {
    match base {
        Some(b) => o.push(("base"@, json_string(b))),
        None => o,
    }
}

/// The members of a workspace configuration's JSON form.
pub open spec fn config_members(cfg: WorkspaceConfig) -> Seq<(Seq<char>, Seq<char>)> {
    let kind = Seq::empty().push(("type"@, json_string(kind_name(cfg))));
    match cfg {
        WorkspaceConfig::Worktree(w) => with_base(kind, opt_text(w.base)),
        WorkspaceConfig::SlotPool(c) => with_base(
            kind.push(("pool"@, decimal(c.pool as nat))).push(
                ("reset"@, json_string(reset_name(c.reset))),
            ),
            opt_text(c.base),
        ),
    }
}

/// The key of a workspace configuration: its kind and the whole configuration.
pub open spec fn workspace_key(cfg: WorkspaceConfig) -> Seq<char> {
    kind_name(cfg) + "|"@ + object_text(config_members(cfg))
}

impl WorkspaceConfig {
    /// The registry key of this kind of workspace.
    pub fn kind(&self) -> (r: &'static str)
        ensures
            r@ == kind_name(*self),
    {
        match self {
            WorkspaceConfig::Worktree(_) => "worktree",
            WorkspaceConfig::SlotPool(_) => "slot_pool",
        }
    }

    /// The compact JSON form, the same for equal configurations.
    pub fn to_json(&self) -> (r: String)
        ensures
            r@ == object_text(config_members(*self)),
    {
        let kind = quote_json(self.kind());
        let o = ObjectText::new().with("type", &kind);
        let o = match self {
            WorkspaceConfig::Worktree(w) => add_base(o, &w.base),
            WorkspaceConfig::SlotPool(c) => {
                let pool = decimal_of(c.pool as u128);
                let mode = match c.reset {
                    ResetMode::GitClean => quote_json("git_clean"),
                    ResetMode::Reclone => quote_json("reclone"),
                };
                add_base(o.with("pool", &pool).with("reset", &mode), &c.base)
            },
        };
        o.text()
    }

    /// The key under which one workspace instance is shared by every run with this
    /// configuration: the kind and the whole configuration.
    pub fn cache_key(&self) -> (r: String)
        ensures
            r@ == workspace_key(*self),
    {
        let json = self.to_json();
        concat3(self.kind(), "|", &json)
    }
}

fn add_base(o: ObjectText, base: &Option<String>) -> (r: ObjectText)
    ensures
        r@ == with_base(o@, opt_text(*base)),
{
    match base {
        Some(b) => {
            let q = quote_json(b);
            o.with("base", &q)
        },
        None => o,
    }
}

// ---------------------------------------------------------------------------------------------
// Laws
// ---------------------------------------------------------------------------------------------
/// Whether two configurations have the same settings.
pub open spec fn same_settings(a: WorkspaceConfig, b: WorkspaceConfig) -> bool {
    match (a, b) {
        (WorkspaceConfig::Worktree(x), WorkspaceConfig::Worktree(y)) => opt_text(x.base)
            == opt_text(y.base),
        (WorkspaceConfig::SlotPool(x), WorkspaceConfig::SlotPool(y)) => x.pool == y.pool && x.reset
            == y.reset && opt_text(x.base) == opt_text(y.base),
        _ => false,
    }
}

/// Equal texts that begin alike go on alike.
proof fn lemma_same_rest(p: Seq<char>, x: Seq<char>, y: Seq<char>)
    requires
        p + x == p + y,
    ensures
        x == y,
{
    assert(x =~= (p + x).skip(p.len() as int));
    assert(y =~= (p + y).skip(p.len() as int));
}

/// Objects with the same text have the same members' text.
proof fn lemma_same_members(a: Seq<(Seq<char>, Seq<char>)>, b: Seq<(Seq<char>, Seq<char>)>)
    requires
        object_text(a) == object_text(b),
    ensures
        joined(member_texts(a), ","@) == joined(member_texts(b), ","@),
{
    reveal_strlit("}");
    let x = joined(member_texts(a), ","@);
    let y = joined(member_texts(b), ","@);
    assert(("{"@ + x + "}"@).drop_last() =~= "{"@ + x);
    assert(("{"@ + y + "}"@).drop_last() =~= "{"@ + y);
    lemma_same_rest("{"@, x, y);
}

/// One member more.
proof fn lemma_one_more(o: Seq<(Seq<char>, Seq<char>)>, m: (Seq<char>, Seq<char>))
    requires
        o.len() > 0,
    ensures
        joined(member_texts(o.push(m)), ","@) == joined(member_texts(o), ","@) + ","@ + member_text(
            m,
        ),
{
    let all = member_texts(o.push(m));
    assert(all.drop_last() =~= member_texts(o));
    assert(all.last() == member_text(m));
}

/// What the base adds to the members' text.
spec fn base_text(base: Option<Seq<char>>) -> Seq<char> {
    match base {
        Some(b) => ","@ + member_text(("base"@, json_string(b))),
        None => Seq::empty(),
    }
}

proof fn lemma_with_base(o: Seq<(Seq<char>, Seq<char>)>, base: Option<Seq<char>>)
    requires
        o.len() > 0,
    ensures
        joined(member_texts(with_base(o, base)), ","@) == joined(member_texts(o), ","@) + base_text(
            base,
        ),
{
    let j = joined(member_texts(o), ","@);
    match base {
        Some(b) => {
            let m = ("base"@, json_string(b));
            lemma_one_more(o, m);
            assert(j + ","@ + member_text(m) =~= j + (","@ + member_text(m)));
        },
        None => {
            assert(j + Seq::<char>::empty() =~= j);
        },
    }
}

proof fn lemma_bases_differ(a: Option<Seq<char>>, b: Option<Seq<char>>)
    requires
        base_text(a) == base_text(b),
    ensures
        a == b,
{
    reveal_strlit(",");
    match (a, b) {
        (Some(x), Some(y)) => {
            let k = json_string("base"@) + ":"@;
            lemma_same_rest(","@, k + json_string(x), k + json_string(y));
            lemma_same_rest(k, json_string(x), json_string(y));
            if x != y {
                different_texts_are_quoted_differently(x, y);
            }
        },
        (Some(x), None) => {
            assert(base_text(a).len() > 0);
        },
        (None, Some(y)) => {
            assert(base_text(b).len() > 0);
        },
        (None, None) => {},
    }
}

/// Numbers written before a comma are the same where the texts are.
proof fn lemma_numbers_differ(m: nat, n: nat, x: Seq<char>, y: Seq<char>)
    requires
        decimal(m) + x == decimal(n) + y,
        x.len() > 0 && x[0] == ',',
        y.len() > 0 && y[0] == ',',
    ensures
        m == n,
        x == y,
{
    lemma_decimal(m);
    lemma_decimal(n);
    let p = decimal(m) + x;
    let q = decimal(n) + y;
    let i = decimal(m).len() as int;
    let j = decimal(n).len() as int;
    if i < j {
        assert(p[i] == ',');
        assert(q[i] == decimal(n)[i]);
        assert(is_digit(decimal(n)[i]));
    } else if j < i {
        assert(q[j] == ',');
        assert(p[j] == decimal(m)[j]);
        assert(is_digit(decimal(m)[j]));
    } else {
        assert(decimal(m) =~= p.take(i));
        assert(decimal(n) =~= q.take(i));
        lemma_same_rest(decimal(m), x, y);
    }
}

proof fn lemma_modes_differ(a: ResetMode, b: ResetMode, x: Seq<char>, y: Seq<char>)
    requires
        json_string(reset_name(a)) + x == json_string(reset_name(b)) + y,
    ensures
        a == b,
        x == y,
{
    reveal_strlit("git_clean");
    reveal_strlit("reclone");
    lemma_escaped_front(reset_name(a));
    lemma_escaped_front(reset_name(b));
    assert((json_string(reset_name(a)) + x)[1] == reset_name(a)[0]);
    assert((json_string(reset_name(b)) + y)[1] == reset_name(b)[0]);
    lemma_same_rest(json_string(reset_name(a)), x, y);
}

/// The settings of a slot pool, brought into the order in which they are compared.
proof fn lemma_pool_text(
    t: Seq<char>,
    c: Seq<char>,
    p: Seq<char>,
    d: Seq<char>,
    k: Seq<char>,
    m: Seq<char>,
    rest: Seq<char>,
)
    ensures
        t + c + (p + d) + c + (k + m) + rest == (t + c + p) + (d + (c + (k + (m + rest)))),
{
    assert(t + c + (p + d) + c + (k + m) + rest =~= (t + c + p) + (d + (c + (k + (m + rest)))));
}

proof fn lemma_pool_members(cfg: WorkspaceConfig, c: SlotPoolConfig)
    requires
        cfg == WorkspaceConfig::SlotPool(c),
    ensures
        joined(member_texts(config_members(cfg)), ","@) == (member_text(
            ("type"@, json_string("slot_pool"@)),
        ) + ","@ + (json_string("pool"@) + ":"@)) + (decimal(c.pool as nat) + (","@ + (json_string(
            "reset"@,
        ) + ":"@ + (json_string(reset_name(c.reset)) + base_text(opt_text(c.base)))))),
{
    let m0 = ("type"@, json_string("slot_pool"@));
    let m1 = ("pool"@, decimal(c.pool as nat));
    let m2 = ("reset"@, json_string(reset_name(c.reset)));
    let one = Seq::empty().push(m0);
    assert(member_texts(one) =~= seq![member_text(m0)]);
    assert(joined(member_texts(one), ","@) == member_text(m0));
    lemma_one_more(one, m1);
    lemma_one_more(one.push(m1), m2);
    lemma_with_base(one.push(m1).push(m2), opt_text(c.base));
    lemma_pool_text(
        member_text(m0),
        ","@,
        json_string("pool"@) + ":"@,
        decimal(c.pool as nat),
        json_string("reset"@) + ":"@,
        json_string(reset_name(c.reset)),
        base_text(opt_text(c.base)),
    );
}

proof fn lemma_pools_differ(
    a: WorkspaceConfig,
    b: WorkspaceConfig,
    x: SlotPoolConfig,
    y: SlotPoolConfig,
)
    requires
        a == WorkspaceConfig::SlotPool(x),
        b == WorkspaceConfig::SlotPool(y),
        object_text(config_members(a)) == object_text(config_members(b)),
    ensures
        same_settings(a, b),
{
    reveal_strlit(",");
    lemma_same_members(config_members(a), config_members(b));
    lemma_pool_members(a, x);
    lemma_pool_members(b, y);
    let p = member_text(("type"@, json_string("slot_pool"@))) + ","@ + (json_string("pool"@)
        + ":"@);
    let k = json_string("reset"@) + ":"@;
    let mx = json_string(reset_name(x.reset)) + base_text(opt_text(x.base));
    let my = json_string(reset_name(y.reset)) + base_text(opt_text(y.base));
    lemma_same_rest(
        p,
        decimal(x.pool as nat) + (","@ + (k + mx)),
        decimal(y.pool as nat) + (","@ + (k + my)),
    );
    lemma_numbers_differ(x.pool as nat, y.pool as nat, ","@ + (k + mx), ","@ + (k + my));
    lemma_same_rest(","@, k + mx, k + my);
    lemma_same_rest(k, mx, my);
    lemma_modes_differ(
        x.reset,
        y.reset,
        base_text(opt_text(x.base)),
        base_text(opt_text(y.base)),
    );
    lemma_bases_differ(opt_text(x.base), opt_text(y.base));
}

/// Different settings have different keys, so runs share a workspace instance only where their
/// settings are the same.
pub proof fn different_settings_have_different_keys(a: WorkspaceConfig, b: WorkspaceConfig)
    requires
        !same_settings(a, b),
    ensures
        workspace_key(a) != workspace_key(b),
{
    if workspace_key(a) == workspace_key(b) {
        match (a, b) {
            (WorkspaceConfig::Worktree(x), WorkspaceConfig::Worktree(y)) => {
                lemma_same_rest(
                    kind_name(a) + "|"@,
                    object_text(config_members(a)),
                    object_text(config_members(b)),
                );
                lemma_same_members(config_members(a), config_members(b));
                let one = Seq::empty().push(("type"@, json_string("worktree"@)));
                lemma_with_base(one, opt_text(x.base));
                lemma_with_base(one, opt_text(y.base));
                lemma_same_rest(
                    joined(member_texts(one), ","@),
                    base_text(opt_text(x.base)),
                    base_text(opt_text(y.base)),
                );
                lemma_bases_differ(opt_text(x.base), opt_text(y.base));
            },
            (WorkspaceConfig::SlotPool(x), WorkspaceConfig::SlotPool(y)) => {
                lemma_same_rest(
                    kind_name(a) + "|"@,
                    object_text(config_members(a)),
                    object_text(config_members(b)),
                );
                lemma_pools_differ(a, b, x, y);
            },
            _ => {
                reveal_strlit("worktree");
                reveal_strlit("slot_pool");
                assert(workspace_key(a)[0] == kind_name(a)[0]);
                assert(workspace_key(b)[0] == kind_name(b)[0]);
            },
        }
    }
}

/// The same settings share a workspace: they have the same key.
pub proof fn the_same_settings_have_the_same_key(a: WorkspaceConfig, b: WorkspaceConfig)
    requires
        same_settings(a, b),
    ensures
        workspace_key(a) == workspace_key(b),
{
}

} // verus!
