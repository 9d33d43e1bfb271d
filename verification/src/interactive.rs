//! The decisions behind the interactive menus: listing channels, the labels
//! of a choice list, the filter answers, the text of a task file and the
//! name shown for a peer.

use vstd::prelude::*;
use crate::config::ChannelConfig;
use crate::harvest::HarvestStats;
use crate::sort::{lemma_stable_sorted, stable_sort, stable_sorted, SortKey};
use crate::text::{
    chars_of, decimal_i64, decimal_of_int, decimal_of_nat, decimal_u64, parse_i32, parsed_i32,
    string_of,
};

verus! {

/// A channel or group the account can see.
#[derive(Debug, Clone)]
pub struct ChannelInfo {
    pub id: i64,
    pub name: String,
    pub username: Option<String>,
    pub is_channel: bool,
}

/// What the dialog list says of one peer.
#[derive(Debug, Clone)]
pub enum PeerSummary {
    Channel { id: i64, title: String, username: Option<String> },
    Group { id: i64, title: Option<String>, username: Option<String> },
    User,
}

/// `s` in lower case, as `str::to_lowercase` gives it (Unicode lowercase mapping).
pub uninterp spec fn lowercase_of(s: Seq<char>) -> Seq<char>;

/// `str::to_lowercase`: the Unicode lowercase mapping of `s`. It depends on
/// `s` alone; the mapping itself is left to `lowercase_of`.
#[verifier::external_body]
fn to_lowercase(s: &str) -> (r: String)
    ensures
        r@ == lowercase_of(s@),
{
    s.to_lowercase()
}

/// Text order by character code (the order of `str::cmp`, since UTF-8
/// keeps code point order): `a` comes before or equals `b`.
pub open spec fn text_le(a: Seq<char>, b: Seq<char>) -> bool
    decreases a.len(),
{
    if a.len() == 0 {
        true
    } else if b.len() == 0 {
        false
    } else if a[0] != b[0] {
        (a[0] as int) < (b[0] as int)
    } else {
        text_le(a.drop_first(), b.drop_first())
    }
}

proof fn lemma_text_le_total(a: Seq<char>, b: Seq<char>)
    ensures
        text_le(a, b) || text_le(b, a),
    decreases a.len(),
{
    if a.len() > 0 && b.len() > 0 && a[0] == b[0] {
        lemma_text_le_total(a.drop_first(), b.drop_first());
    }
}

proof fn lemma_text_le_transitive(a: Seq<char>, b: Seq<char>, c: Seq<char>)
    requires
        text_le(a, b),
        text_le(b, c),
    ensures
        text_le(a, c),
    decreases a.len(),
{
    if a.len() > 0 && b.len() > 0 && c.len() > 0 && a[0] == b[0] && b[0] == c[0] {
        lemma_text_le_transitive(a.drop_first(), b.drop_first(), c.drop_first());
    }
}

fn text_le_exec(a: &Vec<char>, b: &Vec<char>) -> (r: bool)
    ensures
        r == text_le(a@, b@),
{
    let mut i: usize = 0;
    assert(a@.skip(0) =~= a@);
    assert(b@.skip(0) =~= b@);
    while i < a.len() && i < b.len() && a[i] == b[i]
        invariant
            i <= a.len(),
            i <= b.len(),
            text_le(a@, b@) == text_le(a@.skip(i as int), b@.skip(i as int)),
        decreases a.len() - i,
    {
        assert(a@.skip(i as int).drop_first() =~= a@.skip(i + 1));
        assert(b@.skip(i as int).drop_first() =~= b@.skip(i + 1));
        i += 1;
    }
    if i == a.len() {
        true
    } else if i == b.len() {
        false
    } else {
        assert(a@.skip(i as int)[0] == a@[i as int]);
        assert(b@.skip(i as int)[0] == b@[i as int]);
        a[i] < b[i]
    }
}

impl SortKey for ChannelInfo {
    /// Channels are listed by name, ignoring case.
    open spec fn key_le(&self, other: &Self) -> bool {
        text_le(lowercase_of(self.name@), lowercase_of(other.name@))
    }

    fn key_le_exec(&self, other: &Self) -> (r: bool) {
        let a = chars_of(to_lowercase(self.name.as_str()).as_str());
        let b = chars_of(to_lowercase(other.name.as_str()).as_str());
        text_le_exec(&a, &b)
    }

    proof fn lemma_key_le_total(a: &Self, b: &Self) {
        lemma_text_le_total(lowercase_of(a.name@), lowercase_of(b.name@));
    }

    proof fn lemma_key_le_transitive(a: &Self, b: &Self, c: &Self) {
        lemma_text_le_transitive(
            lowercase_of(a.name@),
            lowercase_of(b.name@),
            lowercase_of(c.name@),
        );
    }
}

/// The name shown for a group without a title.
pub open spec fn unknown_group() -> Seq<char> {
    "Unknown Group"@
}

/// `c` lists the channel or group `p` (a user is not listed).
pub open spec fn describes(p: PeerSummary, c: ChannelInfo) -> bool {
    match p {
        PeerSummary::Channel { id, title, username } => c.id == id && c.name@ == title@
            && c.username == username && c.is_channel,
        PeerSummary::Group { id, title, username } => c.id == id && c.name@ == (match title {
            Some(t) => t@,
            None => unknown_group(),
        }) && c.username == username && !c.is_channel,
        PeerSummary::User => false,
    }
}

/// `cs` lists the channels and groups of `peers`, in their order.
pub open spec fn lists(peers: Seq<PeerSummary>, cs: Seq<ChannelInfo>) -> bool
    decreases peers.len(),
{
    if peers.len() == 0 {
        cs.len() == 0
    } else if peers.last() is User {
        lists(peers.drop_last(), cs)
    } else {
        cs.len() > 0 && describes(peers.last(), cs.last()) && lists(peers.drop_last(), cs.drop_last())
    }
}

/// The entry for one peer of the dialog list, if it is a channel or group.
pub fn channel_info(peer: PeerSummary) -> (r: Option<ChannelInfo>)
    ensures
        peer is User ==> r is None,
        !(peer is User) ==> (r matches Some(c) && describes(peer, c)),
{
    match peer {
        PeerSummary::Channel { id, title, username } => Some(
            ChannelInfo { id, name: title, username, is_channel: true },
        ),
        PeerSummary::Group { id, title, username } => {
            let name = match title {
                Some(t) => t,
                None => String::from_str("Unknown Group"),
            };
            Some(ChannelInfo { id, name, username, is_channel: false })
        },
        PeerSummary::User => None,
    }
}

/// A channel list comes out ordered by the whole of each name in lower case:
/// every name is, character by character, at most every later name (a name
/// that is a prefix of another comes first).
pub proof fn lemma_channels_ordered_by_name(cs: Seq<ChannelInfo>)
    ensures
        forall|i: int, j: int|
            0 <= i < j < stable_sorted(cs).len() ==> text_le(
                lowercase_of((#[trigger] stable_sorted(cs)[i]).name@),
                lowercase_of((#[trigger] stable_sorted(cs)[j]).name@),
            ),
        stable_sorted(cs).len() == cs.len(),
{
    lemma_stable_sorted(cs);
    let r = stable_sorted(cs);
    assert forall|i: int, j: int| 0 <= i < j < r.len() implies text_le(
        lowercase_of((#[trigger] r[i]).name@),
        lowercase_of((#[trigger] r[j]).name@),
    ) by {
        assert(r[i].key_le(&r[j]));
    }
}

/// The channels and groups among `peers`, sorted by name ignoring case;
/// equal names keep their order.
pub fn collect_channels(peers: Vec<PeerSummary>) -> (r: Vec<ChannelInfo>)
    ensures
        exists|cs: Seq<ChannelInfo>| lists(peers@, cs) && r@ == stable_sorted(cs),
        forall|i: int, j: int|
            0 <= i < j < r.len() ==> text_le(
                lowercase_of((#[trigger] r@[i]).name@),
                lowercase_of((#[trigger] r@[j]).name@),
            ),
{
    let ghost orig = peers@;
    assert(orig.len() == peers.len());
    let mut rest = peers;
    let mut out: Vec<ChannelInfo> = Vec::new();
    let mut k: usize = 0;
    while rest.len() > 0
        invariant
            k + rest.len() == orig.len(),
            orig.len() <= usize::MAX,
            rest@ == orig.skip(k as int),
            lists(orig.take(k as int), out@),
        decreases rest.len(),
    {
        let p = rest.remove(0);
        assert(p == orig[k as int]);
        assert(orig.take(k + 1).drop_last() =~= orig.take(k as int));
        assert(orig.take(k + 1).last() == p);
        let ghost before = out@;
        match channel_info(p) {
            Some(c) => {
                out.push(c);
                assert(out@.drop_last() =~= before);
            },
            None => {},
        }
        k += 1;
        assert(rest@ =~= orig.skip(k as int));
    }
    assert(orig.take(k as int) =~= orig);
    let ghost cs = out@;
    proof {
        lemma_channels_ordered_by_name(cs);
    }
    stable_sort(out)
}

/// The message shown when there is nothing to choose from.
pub open spec fn nothing_to_choose() -> Seq<char> {
    "没有可用的频道或群组"@
}

/// The label of the `i`-th choice (counted from 0):
/// `[i+1] NAME (频道|群组) @USERNAME`, `无用户名` standing for a missing username.
pub open spec fn choice_label(i: int, c: ChannelInfo) -> Seq<char> {
    "["@ + decimal_of_nat((i + 1) as nat) + "] "@ + c.name@ + " ("@ + (if c.is_channel {
        "频道"@
    } else {
        "群组"@
    }) + ") @"@ + match c.username {
        Some(u) => u@,
        None => "无用户名"@,
    }
}

/// The labels of a choice list over `channels`; an error when it is empty.
pub fn choice_labels(channels: &Vec<ChannelInfo>) -> (r: Result<Vec<String>, String>)
    ensures
        channels.len() == 0 ==> (r matches Err(e) && e@ == nothing_to_choose()),
        channels.len() > 0 ==> (r matches Ok(labels) && labels.len() == channels.len()
            && forall|i: int|
            0 <= i < labels.len() ==> #[trigger] labels[i]@ == choice_label(i, channels[i])),
{
    if channels.len() == 0 {
        return Err(String::from_str("没有可用的频道或群组"));
    }
    let mut labels: Vec<String> = Vec::new();
    let mut i: usize = 0;
    while i < channels.len()
        invariant
            i <= channels.len(),
            labels.len() == i,
            forall|j: int| 0 <= j < i ==> #[trigger] labels[j]@ == choice_label(j, channels[j]),
        decreases channels.len() - i,
    {
        let c = &channels[i];
        let mut s = String::from_str("[");
        let n = string_of(&decimal_u64(i as u64 + 1));
        s.append(n.as_str());
        s.append("] ");
        s.append(c.name.as_str());
        s.append(" (");
        if c.is_channel {
            s.append("频道");
        } else {
            s.append("群组");
        }
        s.append(") @");
        match &c.username {
            Some(u) => s.append(u.as_str()),
            None => s.append("无用户名"),
        }
        assert(s@ =~= choice_label(i as int, channels[i as int]));
        labels.push(s);
        i += 1;
    }
    Ok(labels)
}

/// The answers to the filter questions of a new or edited task.
#[derive(Debug, Clone)]
pub struct FilterSettings {
    /// `any` or `all`.
    pub mode: String,
    pub min_reactions: i32,
    pub min_comments: i32,
}

/// The message shown for an answer that is not a number.
pub open spec fn not_a_number() -> Seq<char> {
    "请输入有效数字"@
}

/// Checks an answer to a numeric question: it must read as an `i32`.
pub fn validate_number(input: &str) -> (r: Result<(), String>)
    ensures
        parsed_i32(input@) is Some ==> r is Ok,
        parsed_i32(input@) is None ==> (r matches Err(e) && e@ == not_a_number()),
{
    match parse_i32(input) {
        Some(_) => Ok(()),
        None => Err(String::from_str("请输入有效数字")),
    }
}

/// The number an answer gives, 0 when it does not read as an `i32`.
pub open spec fn answer_value(s: Seq<char>) -> i32 {
    match parsed_i32(s) {
        Some(n) => n,
        None => 0,
    }
}

impl FilterSettings {
    /// The settings that the answers give: the first mode choice is `any`,
    /// any other `all`; a numeric answer that does not read counts as 0.
    pub fn from_answers(mode_index: usize, reactions: &str, comments: &str) -> (r: Self)
        ensures
            r.mode@ == (if mode_index == 0 {
                "any"@
            } else {
                "all"@
            }),
            r.min_reactions == answer_value(reactions@),
            r.min_comments == answer_value(comments@),
    {
        let mode = if mode_index == 0 {
            String::from_str("any")
        } else {
            String::from_str("all")
        };
        let min_reactions = match parse_i32(reactions) {
            Some(n) => n,
            None => 0,
        };
        let min_comments = match parse_i32(comments) {
            Some(n) => n,
            None => 0,
        };
        FilterSettings { mode, min_reactions, min_comments }
    }
}

/// The file that holds the task of `source`: `SOURCE.toml`.
pub fn config_file_name(source: &str) -> (r: String)
    ensures
        r@ == source@ + ".toml"@,
{
    let mut r = String::from_str(source);
    r.append(".toml");
    r
}

/// The text of a task file: the source and target, no limit, the filter
/// mode, a reaction rule over 👍 and ❤️ with the reaction minimum, and the
/// comment minimum.
pub open spec fn channel_config_text(
    source: Seq<char>,
    target: Seq<char>,
    filter_mode: Seq<char>,
    min_reactions: i32,
    min_comments: i32,
) -> Seq<char> {
    "source = \""@ + source + "\"\ntarget = \""@ + target
        + "\"\nlimit = 0\n\n[filter]\nmode = \""@ + filter_mode
        + "\"\n\n[filter.reactions]\nspecific = [\"\u{1f44d}\", \"\u{2764}\u{fe0f}\"]\nmin_specific_total = "@
        + decimal_of_int(min_reactions as int) + "\n\n[filter.comments]\nmin = "@ + decimal_of_int(
        min_comments as int,
    ) + "\n"@
}

/// Writes the text of the task file for `source`, `target` and `filter`.
pub fn render_channel_config(source: &str, target: &str, filter: &FilterSettings) -> (r: String)
    ensures
        r@ == channel_config_text(
            source@,
            target@,
            filter.mode@,
            filter.min_reactions,
            filter.min_comments,
        ),
{
    let mut r = String::from_str("source = \"");
    r.append(source);
    r.append("\"\ntarget = \"");
    r.append(target);
    r.append("\"\nlimit = 0\n\n[filter]\nmode = \"");
    r.append(filter.mode.as_str());
    r.append(
        "\"\n\n[filter.reactions]\nspecific = [\"\u{1f44d}\", \"\u{2764}\u{fe0f}\"]\nmin_specific_total = ",
    );
    let reactions = string_of(&decimal_i64(filter.min_reactions as i64));
    r.append(reactions.as_str());
    r.append("\n\n[filter.comments]\nmin = ");
    let comments = string_of(&decimal_i64(filter.min_comments as i64));
    r.append(comments.as_str());
    r.append("\n");
    r
}

/// The name shown for a task's peer: the title of the channel, or of the
/// group (the identifier when it has none), found for `identifier`;
/// the identifier itself when nothing or a user was found.
pub open spec fn display_name_of(found: Option<PeerSummary>, identifier: Seq<char>) -> Seq<char> {
    match found {
        Some(PeerSummary::Channel { title, .. }) => title@,
        Some(PeerSummary::Group { title, .. }) => match title {
            Some(t) => t@,
            None => identifier,
        },
        _ => identifier,
    }
}

/// Chooses the name shown for a peer, given what a lookup of `identifier` found.
pub fn display_name(found: Option<PeerSummary>, identifier: &str) -> (r: String)
    ensures
        r@ == display_name_of(found, identifier@),
{
    match found {
        Some(PeerSummary::Channel { title, .. }) => title,
        Some(PeerSummary::Group { title, .. }) => match title {
            Some(t) => t,
            None => String::from_str(identifier),
        },
        _ => String::from_str(identifier),
    }
}

} // verus!
