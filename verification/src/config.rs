//! Configuration records: the global settings and the per-channel task
//! settings with their filter rules.

use vstd::prelude::*;
use crate::text::{all_ascii_digits, all_digits, chars_of, string_of};

verus! {

/// Global settings: API credentials, the pause between forwards and the
/// number of messages fetched per batch.
#[derive(Debug, Clone)]
pub struct GlobalConfig {
    pub api_id: i32,
    pub api_hash: String,
    pub forward_delay_ms: u64,
    pub batch_size: usize,
}

/// The pause between two forwards when the configuration gives none.
pub fn default_forward_delay_ms() -> (r: u64)
    ensures
        r == 1500,
{
    1500
}

/// The batch size when the configuration gives none.
pub fn default_batch_size() -> (r: usize)
    ensures
        r == 100,
{
    100
}

/// The report when `config.toml` is missing.
pub open spec fn config_missing_text() -> Seq<char> {
    "config.toml not found. Please create one with your API credentials."@
}

impl GlobalConfig {
    /// The global configuration from `config.toml`: `loaded` is what reading
    /// and parsing the file gave, `None` when the file does not exist, which
    /// is refused with a request to create it.
    pub fn load_default(loaded: Option<Result<GlobalConfig, String>>) -> (r: Result<
        GlobalConfig,
        String,
    >)
        ensures
            loaded matches Some(result) ==> r == result,
            loaded is None ==> (r matches Err(e) && e@ == config_missing_text()),
    {
        match loaded {
            Some(result) => result,
            None => Err(
                String::from_str("config.toml not found. Please create one with your API credentials."),
            ),
        }
    }
}

/// One harvesting task: where messages come from, where they go, how many
/// to process at most (0 for no limit) and which of them to forward.
#[derive(Debug, Clone)]
pub struct ChannelConfig {
    pub source: String,
    pub target: String,
    pub limit: usize,
    pub filter: FilterConfig,
}

impl ChannelConfig {
    /// The source is written as a numeric id (every character an ASCII digit).
    pub fn is_source_id(&self) -> (r: bool)
        ensures
            r == all_digits(self.source@),
    {
        all_ascii_digits(self.source.as_str())
    }

    /// The target is written as a numeric id (every character an ASCII digit).
    pub fn is_target_id(&self) -> (r: bool)
        ensures
            r == all_digits(self.target@),
    {
        all_ascii_digits(self.target.as_str())
    }
}

/// How the filter rules of a task combine.
#[derive(Debug, Clone, Copy, PartialEq, Eq, Structural)]
pub enum FilterMode {
    /// A message passes when any rule accepts it.
    Any,
    /// A message passes when every rule accepts it.
    All,
}

impl Default for FilterMode {
    fn default() -> (r: Self)
        ensures
            r == FilterMode::Any,
    {
        FilterMode::Any
    }
}

/// The text of a filter mode: `any` or `all`.
pub open spec fn mode_text(m: FilterMode) -> Seq<char> {
    match m {
        FilterMode::Any => seq!['a', 'n', 'y'],
        FilterMode::All => seq!['a', 'l', 'l'],
    }
}

impl FilterMode {
    /// The text of the mode, as it is written in a task file.
    pub fn to_string(&self) -> (r: String)
        ensures
            r@ == mode_text(*self),
    {
        match self {
            FilterMode::Any => {
                let v = chars_of("any");
                proof {
                    reveal_strlit("any");
                }
                assert(v@ =~= mode_text(*self));
                string_of(&v)
            },
            FilterMode::All => {
                let v = chars_of("all");
                proof {
                    reveal_strlit("all");
                }
                assert(v@ =~= mode_text(*self));
                string_of(&v)
            },
        }
    }
}

/// The filter section of a task.
#[derive(Debug, Clone)]
pub struct FilterConfig {
    pub mode: FilterMode,
    pub reactions: Option<ReactionFilterConfig>,
    pub comments: Option<CommentFilterConfig>,
}

impl Default for FilterConfig {
    fn default() -> (r: Self)
        ensures
            r.mode == FilterMode::Any,
            r.reactions is None,
            r.comments is None,
    {
        FilterConfig { mode: FilterMode::Any, reactions: None, comments: None }
    }
}

/// Reaction rule settings: which emoji count (none listed: all of them) and
/// the least total a message needs.
#[derive(Debug, Clone)]
pub struct ReactionFilterConfig {
    pub specific: Vec<String>,
    pub min_specific_total: i32,
}

/// Comment rule settings: the least number of comments a message needs.
#[derive(Debug, Clone)]
pub struct CommentFilterConfig {
    pub min: i32,
}

/// The extension of a file name, as `Path::extension` reads it: what follows
/// the last `.`, unless there is no `.`, the only `.` is the first character,
/// or the name is `..`.
pub open spec fn extension_of(name: Seq<char>) -> Option<Seq<char>> {
    if name =~= seq!['.', '.'] {
        None
    } else {
        match last_dot(name) {
            Some(k) => if k == 0 { None } else { Some(name.skip(k + 1)) },
            None => None,
        }
    }
}

/// The position of the last `.` in `name`.
pub open spec fn last_dot(name: Seq<char>) -> Option<int>
    decreases name.len(),
{
    if name.len() == 0 {
        None
    } else if name.last() == '.' {
        Some(name.len() - 1)
    } else {
        last_dot(name.drop_last())
    }
}

/// Whether a directory entry named `file_name` is a task file: its extension
/// is `toml`.
pub fn has_toml_extension(file_name: &str) -> (r: bool)
    ensures
        r == (extension_of(file_name@) == Some(seq!['t', 'o', 'm', 'l'])),
{
    let v = chars_of(file_name);
    let n = v.len();
    let is_parent = n == 2 && v[0] == '.' && v[1] == '.';
    if is_parent {
        assert(v@ =~= seq!['.', '.']);
        return false;
    }
    assert(!(v@ =~= seq!['.', '.']));
    let mut i: usize = n;
    assert(v@.take(n as int) =~= v@);
    while i > 0
        invariant
            i <= n,
            n == v.len(),
            last_dot(v@) == last_dot(v@.take(i as int)),
        ensures
            i <= n,
            last_dot(v@) == last_dot(v@.take(i as int)),
            i == 0 || v@[i - 1] == '.',
        decreases i,
    {
        if v[i - 1] == '.' {
            break;
        }
        assert(v@.take(i as int).drop_last() =~= v@.take(i - 1));
        i -= 1;
    }
    if i == 0 {
        assert(v@.take(0) =~= Seq::<char>::empty());
        return false;
    }
    assert(v@.take(i as int).last() == v@[i - 1]);
    assert(last_dot(v@.take(i as int)) == Some(i - 1));
    if i == 1 {
        return false;
    }
    let rest = n - i;
    let ghost ext = v@.skip(i as int);
    let r = rest == 4 && v[i] == 't' && v[i + 1] == 'o' && v[i + 2] == 'm' && v[i + 3] == 'l';
    if r {
        assert(ext =~= seq!['t', 'o', 'm', 'l']);
    } else if rest == 4 {
        assert(ext[0] == v@[i as int] && ext[1] == v@[i + 1] && ext[2] == v@[i + 2] && ext[3]
            == v@[i + 3]);
        assert(!(ext =~= seq!['t', 'o', 'm', 'l']));
    } else {
        assert(ext.len() != 4);
    }
    r
}

} // verus!
