//! Switchyard application configuration.

use vstd::prelude::*;
use vstd::string::*;

use crate::providers::anthropic::AnthropicAdapter;
use crate::providers::config::ProviderConfig;
use crate::providers::decode;
use crate::providers::error::{ProviderError, ProviderErrorView};
use crate::providers::registry;
use crate::providers::registry::ProviderRegistry;
use crate::sorted::SortedMap;
use crate::text;

verus! {

/// Top-level Switchyard configuration.
#[derive(Debug, Clone)]
pub struct SwitchyardConfig {
    pub providers: Vec<ProviderConfig>,
    /// Other names for routes.
    pub aliases: SortedMap<String>,
    /// The routes that stand in for a route that fails, in order.
    pub fallbacks: SortedMap<Vec<String>>,
}

impl SwitchyardConfig {
    pub open spec fn wf(self) -> bool {
        self.aliases.wf() && self.fallbacks.wf()
    }
}

impl Default for SwitchyardConfig {
    fn default() -> (r: SwitchyardConfig)
        ensures
            r.wf(),
            r.providers@.len() == 0,
            r.aliases.entries@.len() == 0,
            r.fallbacks.entries@.len() == 0,
    {
        SwitchyardConfig {
            providers: Vec::new(),
            aliases: SortedMap::new(),
            fallbacks: SortedMap::new(),
        }
    }
}

impl SwitchyardConfig {
    /// Set up the configured providers.
    pub fn into_registry(self) -> (r: Result<ProviderRegistry<AnthropicAdapter>, ProviderError>)
        ensures
            match r {
                Ok(reg) => reg.wf() && registry::configs_defect(
                    decode::all_views(self.providers@),
                ) is None && registry::holds_exactly(reg@, decode::all_views(self.providers@)),
                Err(e) => registry::configs_defect(decode::all_views(self.providers@)) matches Some(
                    defect,
                ) && e@ == ProviderErrorView::Config(defect.display()),
            },
    {
        ProviderRegistry::from_configs(self.providers)
    }
}

// ---------------------------------------------------------------------------
// Paths
// ---------------------------------------------------------------------------

/// A relative path below a directory. A slash is put between the two unless
/// the directory is empty or ends in one.
pub open spec fn below(dir: Seq<char>, relative: Seq<char>) -> Seq<char> {
    if dir.len() == 0 || dir.last() == '/' {
        dir + relative
    } else {
        dir + seq!['/'] + relative
    }
}

pub fn join_path(dir: &str, relative: &str) -> (r: String)
    ensures
        r@ == below(dir@, relative@),
{
    let v = text::chars_of(dir);
    if v.len() == 0 || v[v.len() - 1] == '/' {
        text::concat2(dir, relative)
    } else {
        proof {
            reveal_strlit("/");
            assert("/"@ =~= seq!['/']);
        }
        text::concat3(dir, "/", relative)
    }
}

/// The directory of configuration files: the one given by `XDG_CONFIG_HOME`,
/// else `.config` in the home directory, else `.config`.
pub open spec fn config_home(xdg: Option<Seq<char>>, home: Option<Seq<char>>) -> Seq<char> {
    match xdg {
        Some(dir) => dir,
        None => match home {
            Some(dir) => below(dir, ".config"@),
            None => ".config"@,
        },
    }
}

/// Where the configuration is, given the values of `XDG_CONFIG_HOME` and
/// `HOME`.
pub fn default_config_path(xdg: Option<&str>, home: Option<&str>) -> (r: String)
    ensures
        r@ == below(
            config_home(
                match xdg {
                    Some(s) => Some(s@),
                    None => None,
                },
                match home {
                    Some(s) => Some(s@),
                    None => None,
                },
            ),
            "switchyard/config.json"@,
        ),
{
    match xdg {
        Some(dir) => join_path(dir, "switchyard/config.json"),
        None => match home {
            Some(dir) => {
                let base = join_path(dir, ".config");
                join_path(base.as_str(), "switchyard/config.json")
            },
            None => join_path(".config", "switchyard/config.json"),
        },
    }
}

/// A path without the separators and `.` segments that stand at its end. A
/// root stays, and so does a `.` at the beginning.
pub open spec fn without_trailing(path: Seq<char>) -> Seq<char>
    decreases path.len(),
{
    if path.len() > 1 && (path.last() == '/' || path.last() == '.' && path[path.len() - 2] == '/') {
        without_trailing(path.drop_last())
    } else {
        path
    }
}

/// How much of a path comes before its last segment.
pub open spec fn last_segment_at(path: Seq<char>) -> nat
    decreases path.len(),
{
    if path.len() == 0 || path.last() == '/' {
        path.len()
    } else {
        last_segment_at(path.drop_last())
    }
}

/// The directory that holds what a path leads to; empty for a single segment.
/// The root and the empty path have none.
pub open spec fn parent(path: Seq<char>) -> Option<Seq<char>> {
    let p = without_trailing(path);
    if p.len() == 0 || p == seq!['/'] {
        None
    } else {
        Some(without_trailing(p.take(last_segment_at(p) as int)))
    }
}

fn trailing_from(v: &Vec<char>, end: usize) -> (r: usize)
    requires
        end <= v@.len(),
    ensures
        r <= end,
        without_trailing(v@.take(end as int)) == v@.take(r as int),
{
    let mut n: usize = end;
    while n > 1 && (v[n - 1] == '/' || (v[n - 1] == '.' && v[n - 2] == '/'))
        invariant
            n <= end <= v@.len(),
            without_trailing(v@.take(end as int)) == without_trailing(v@.take(n as int)),
        decreases n,
    {
        assert(v@.take(n as int).drop_last() =~= v@.take(n - 1));
        n = n - 1;
    }
    n
}

fn segment_from(v: &Vec<char>, end: usize) -> (r: usize)
    requires
        end <= v@.len(),
    ensures
        r <= end,
        r == last_segment_at(v@.take(end as int)),
{
    let mut n: usize = end;
    while n > 0 && v[n - 1] != '/'
        invariant
            n <= end <= v@.len(),
            last_segment_at(v@.take(end as int)) == last_segment_at(v@.take(n as int)),
        decreases n,
    {
        assert(v@.take(n as int).drop_last() =~= v@.take(n - 1));
        n = n - 1;
    }
    n
}

/// The directory that holds what a path leads to.
pub fn parent_path(path: &str) -> (r: Option<String>)
    ensures
        decode::text_view(r) == parent(path@),
{
    let v = text::chars_of(path);
    let n: usize = trailing_from(&v, v.len());
    assert(v@.take(v@.len() as int) =~= path@);
    let ghost p = v@.take(n as int);
    if n == 0 || (n == 1 && v[0] == '/') {
        assert(n == 1 ==> p =~= seq!['/']);
        return None;
    }
    assert(p != seq!['/']) by {
        if p == seq!['/'] {
            assert(p.len() == 1 && p[0] == '/');
        }
    }
    let at: usize = segment_from(&v, n);
    assert(p.take(at as int) =~= v@.take(at as int));
    let m: usize = trailing_from(&v, at);
    assert(v@.subrange(0, m as int) =~= v@.take(m as int));
    Some(text::text_of(&v, 0, m))
}

/// A relative path below a directory begins with the directory, and a slash
/// parts them.
pub proof fn law_paths_below_a_directory(dir: Seq<char>, relative: Seq<char>)
    ensures
        below(dir + seq!['/'], relative) == dir + seq!['/'] + relative,
        below(Seq::empty(), relative) == relative,
        dir.len() > 0 && dir.last() != '/' ==> below(dir, relative) == dir + seq!['/'] + relative,
{
    reveal_strlit("/");
    let slashed = dir + seq!['/'];
    assert(slashed.last() == '/');
    assert(Seq::<char>::empty() + relative =~= relative);
    if dir.len() > 0 && dir.last() != '/' {
        assert(below(dir, relative) =~= dir + seq!['/'] + relative);
    }
}

/// The directory that a path below a directory is in is that directory.
pub proof fn law_parent_of_a_path_below(dir: Seq<char>, name: Seq<char>)
    requires
        dir.len() > 0,
        dir.last() != '/',
        dir.last() != '.',
        name.len() > 0,
        name.last() != '.',
        forall|i: int| 0 <= i < name.len() ==> #[trigger] name[i] != '/',
    ensures
        parent(dir + seq!['/'] + name) == Some(dir),
{
    let front = dir + seq!['/'];
    let path = front + name;
    assert(path.last() == name[name.len() - 1]);
    assert(without_trailing(path) == path);
    lemma_segment(front, name);
    assert(path.take(front.len() as int) =~= front);
    assert(front.drop_last() =~= dir);
    assert(front.last() == '/');
    assert(without_trailing(dir) == dir);
    assert(path != seq!['/']) by {
        assert(path.len() > 1);
    }
}

proof fn lemma_segment(front: Seq<char>, name: Seq<char>)
    requires
        front.len() > 0,
        front.last() == '/',
        forall|i: int| 0 <= i < name.len() ==> #[trigger] name[i] != '/',
    ensures
        last_segment_at(front + name) == front.len(),
    decreases name.len(),
{
    let path = front + name;
    if name.len() > 0 {
        assert(path.last() == name[name.len() - 1]);
        assert(path.drop_last() =~= front + name.drop_last());
        assert forall|i: int| 0 <= i < name.drop_last().len() implies #[trigger] name.drop_last()[i]
            != '/' by {
            assert(name.drop_last()[i] == name[i]);
        }
        lemma_segment(front, name.drop_last());
    } else {
        assert(path =~= front);
    }
}

/// The directory of configuration files is the one that was asked for; without
/// one it is `.config`, in the home directory where that is known.
pub proof fn law_config_home(xdg: Seq<char>, home: Option<Seq<char>>)
    ensures
        config_home(Some(xdg), home) == xdg,
        config_home(None, None) == ".config"@,
        home matches Some(dir) && dir.len() > 0 && dir.last() != '/' ==> config_home(None, home)
            == home->Some_0 + seq!['/'] + ".config"@,
{
    if let Some(dir) = home {
        law_paths_below_a_directory(dir, ".config"@);
    }
}

/// Slashes and `.` segments at the end of a path lead nowhere: the directory
/// that holds it stays the same.
pub proof fn law_trailing_segments_lead_nowhere(path: Seq<char>)
    requires
        path.len() > 0,
    ensures
        parent(path + seq!['/']) == parent(path),
        parent(path + seq!['/', '.']) == parent(path),
{
    let slashed = path + seq!['/'];
    let dotted = path + seq!['/', '.'];
    assert(slashed.last() == '/' && slashed.drop_last() =~= path);
    assert(dotted.last() == '.' && dotted[dotted.len() - 2] == '/');
    assert(dotted.drop_last() =~= slashed);
    assert(without_trailing(slashed) == without_trailing(path));
    assert(without_trailing(dotted) == without_trailing(slashed));
}

proof fn lemma_single_segment(name: Seq<char>)
    requires
        forall|i: int| 0 <= i < name.len() ==> #[trigger] name[i] != '/',
    ensures
        last_segment_at(name) == 0,
    decreases name.len(),
{
    if name.len() > 0 {
        assert(name[name.len() - 1] != '/');
        assert forall|i: int| 0 <= i < name.drop_last().len() implies #[trigger] name.drop_last()[i]
            != '/' by {
            assert(name.drop_last()[i] == name[i]);
        }
        lemma_single_segment(name.drop_last());
    }
}

/// Nothing holds the root or the empty path; a single segment is held by the
/// directory that paths start from, and one below the root by the root.
pub proof fn law_ends_of_paths(name: Seq<char>)
    requires
        name.len() > 0,
        forall|i: int| 0 <= i < name.len() ==> #[trigger] name[i] != '/',
    ensures
        parent(Seq::empty()) is None,
        parent(seq!['/']) is None,
        parent(name) == Some(Seq::<char>::empty()),
        name != seq!['.'] ==> parent(seq!['/'] + name) == Some(seq!['/']),
{
    let root = seq!['/'];
    assert(name[name.len() - 1] != '/');
    if name.len() > 1 {
        assert(name[name.len() - 2] != '/');
    }
    assert(without_trailing(name) == name);
    assert(name != root) by {
        assert(name[0] != '/');
    }
    lemma_single_segment(name);
    assert(name.take(0) =~= Seq::<char>::empty());
    if name != seq!['.'] {
        let path = root + name;
        assert(path.last() == name[name.len() - 1]);
        if path.last() == '.' && path[path.len() - 2] == '/' {
            if name.len() > 1 {
                assert(path[path.len() - 2] == name[name.len() - 2]);
            } else {
                assert(name =~= seq!['.']);
            }
        }
        assert(without_trailing(path) == path);
        assert(path != root) by {
            assert(path.len() > 1);
        }
        lemma_segment(root, name);
        assert(path.take(1) =~= root);
    }
}

} // verus!
