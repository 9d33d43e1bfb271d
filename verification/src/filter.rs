//! Message filters: which messages of a source are worth forwarding, judged
//! by their reactions and their comment count.

use vstd::prelude::*;
use crate::config::{FilterConfig, FilterMode, ReactionFilterConfig};
use crate::text::{chars_of, decimal_i64, decimal_of_int, string_of};

verus! {

/// What a reaction is: an emoji, a custom emoji (by document id), or one of
/// the kinds that carry no emoji.
#[derive(Debug, Clone)]
pub enum ReactionKind {
    Emoji(String),
    CustomEmoji(i64),
    Empty,
    Paid,
}

/// How many times one reaction was given to a message.
#[derive(Debug, Clone)]
pub struct ReactionCount {
    pub reaction: ReactionKind,
    pub count: i32,
}

/// The counters of a regular message: its reaction results and its comment
/// count, each absent when the message carries none.
#[derive(Debug, Clone)]
pub struct MessageCounters {
    pub reactions: Option<Vec<ReactionCount>>,
    pub replies: Option<i32>,
}

/// What the harvester reads of a message.
#[derive(Debug, Clone)]
pub struct MessageInfo {
    pub id: i32,
    /// The album the message belongs to, if any.
    pub grouped_id: Option<i64>,
    pub has_text: bool,
    pub has_media: bool,
    /// The counters of a regular message; `None` for service and empty messages.
    pub counters: Option<MessageCounters>,
    /// The message date in RFC 3339 form.
    pub date: String,
}

impl MessageInfo {
    /// The reaction list is short enough that its counts add up in an `i64`.
    pub open spec fn wf(&self) -> bool {
        match self.counters {
            Some(c) => match c.reactions {
                Some(rs) => rs.len() <= 0x1_0000_0000,
                None => true,
            },
            None => true,
        }
    }

    /// A message with neither text nor media: one that was deleted.
    pub open spec fn is_deleted(&self) -> bool {
        !self.has_text && !self.has_media
    }
}

/// `s` without its emoji variation selectors (U+FE0F).
pub open spec fn without_variation_selectors(s: Seq<char>) -> Seq<char>
    decreases s.len(),
{
    if s.len() == 0 {
        s
    } else if s.last() == '\u{fe0f}' {
        without_variation_selectors(s.drop_last())
    } else {
        without_variation_selectors(s.drop_last()).push(s.last())
    }
}

/// The text by which a custom emoji is named: `<custom:ID>`.
pub open spec fn custom_emoji_text(id: i64) -> Seq<char> {
    seq!['<', 'c', 'u', 's', 't', 'o', 'm', ':'] + decimal_of_int(id as int) + seq!['>']
}

/// The emoji text of a reaction, with variation selectors removed.
pub open spec fn reaction_text(k: ReactionKind) -> Seq<char> {
    match k {
        ReactionKind::Emoji(e) => without_variation_selectors(e@),
        ReactionKind::CustomEmoji(id) => without_variation_selectors(custom_emoji_text(id)),
        _ => Seq::empty(),
    }
}

fn normalize_chars(v: &Vec<char>) -> (r: String)
    ensures
        r@ == without_variation_selectors(v@),
{
    let mut out: Vec<char> = Vec::new();
    let mut i: usize = 0;
    while i < v.len()
        invariant
            i <= v.len(),
            out@ == without_variation_selectors(v@.take(i as int)),
        decreases v.len() - i,
    {
        assert(v@.take(i + 1).drop_last() =~= v@.take(i as int));
        if v[i] != '\u{fe0f}' {
            out.push(v[i]);
        }
        i += 1;
    }
    assert(v@.take(v.len() as int) =~= v@);
    string_of(&out)
}

/// Removes emoji variation selectors (U+FE0F), so that `❤️` and `❤` compare equal.
pub fn normalize_emoji(s: &str) -> (r: String)
    ensures
        r@ == without_variation_selectors(s@),
{
    let v = chars_of(s);
    normalize_chars(&v)
}

/// The emoji text of a reaction, with variation selectors removed.
pub fn reaction_emoji(r: &ReactionCount) -> (s: String)
    ensures
        s@ == reaction_text(r.reaction),
{
    match &r.reaction {
        ReactionKind::Emoji(e) => normalize_emoji(e.as_str()),
        ReactionKind::CustomEmoji(id) => {
            let mut v = chars_of("<custom:");
            proof {
                reveal_strlit("<custom:");
            }
            let digits = decimal_i64(*id);
            let mut i: usize = 0;
            let ghost start = v@;
            while i < digits.len()
                invariant
                    i <= digits.len(),
                    v@ == start + digits@.take(i as int),
                decreases digits.len() - i,
            {
                v.push(digits[i]);
                i += 1;
                assert(v@ =~= start + digits@.take(i as int));
            }
            v.push('>');
            assert(digits@.take(digits.len() as int) =~= digits@);
            assert(v@ =~= custom_emoji_text(*id));
            normalize_chars(&v)
        },
        ReactionKind::Empty => String::new(),
        ReactionKind::Paid => String::new(),
    }
}

/// A rule that judges one message.
pub trait MessageFilter {
    /// Whether the rule accepts `msg`.
    spec fn accepts(&self, msg: MessageInfo) -> bool;

    /// Judges `msg`.
    fn accept(&self, msg: &MessageInfo) -> (r: bool)
        requires
            msg.wf(),
        ensures
            r == self.accepts(*msg),
    ;
}

/// Accepts messages whose reactions add up to at least `min_specific_total`,
/// counting only the emoji in `specific` (all of them when it is empty).
#[derive(Debug, Clone)]
pub struct ReactionFilter {
    pub specific: Vec<String>,
    pub min_specific_total: i32,
}

impl ReactionFilter {
    /// Whether a reaction of kind `k` counts towards the total.
    pub open spec fn counts(&self, k: ReactionKind) -> bool {
        self.specific.len() == 0 || exists|j: int|
            0 <= j < self.specific.len() && #[trigger] self.specific[j]@ == reaction_text(k)
    }

    /// The sum of the counts of the reactions in `rs` that count.
    pub open spec fn counted_total(&self, rs: Seq<ReactionCount>) -> int
        decreases rs.len(),
    {
        if rs.len() == 0 {
            0
        } else {
            self.counted_total(rs.drop_last()) + if self.counts(rs.last().reaction) {
                rs.last().count as int
            } else {
                0
            }
        }
    }

    fn lists(&self, emoji: &String) -> (r: bool)
        ensures
            r == exists|j: int|
                0 <= j < self.specific.len() && #[trigger] self.specific[j]@ == emoji@,
    {
        let mut j: usize = 0;
        while j < self.specific.len()
            invariant
                j <= self.specific.len(),
                forall|k: int| 0 <= k < j ==> #[trigger] self.specific[k]@ != emoji@,
            decreases self.specific.len() - j,
        {
            if self.specific[j] == *emoji {
                return true;
            }
            j += 1;
        }
        false
    }
}

impl MessageFilter for ReactionFilter {
    open spec fn accepts(&self, msg: MessageInfo) -> bool {
        if self.min_specific_total <= 0 && self.specific.len() == 0 {
            true
        } else {
            match msg.counters {
                Some(c) => match c.reactions {
                    Some(rs) => self.counted_total(rs@) >= self.min_specific_total,
                    None => false,
                },
                None => false,
            }
        }
    }

    fn accept(&self, msg: &MessageInfo) -> (r: bool) {
        if self.min_specific_total <= 0 && self.specific.len() == 0 {
            return true;
        }
        let rs = match &msg.counters {
            Some(c) => match &c.reactions {
                Some(rs) => rs,
                None => return false,
            },
            None => return false,
        };
        let mut total: i64 = 0;
        let mut i: usize = 0;
        while i < rs.len()
            invariant
                i <= rs.len(),
                rs.len() <= 0x1_0000_0000,
                total as int == self.counted_total(rs@.take(i as int)),
                -(i as int) * 0x8000_0000 <= total <= (i as int) * 0x7fff_ffff,
            decreases rs.len() - i,
        {
            let emoji = reaction_emoji(&rs[i]);
            assert(rs@.take(i + 1).drop_last() =~= rs@.take(i as int));
            let counted = self.specific.len() == 0 || self.lists(&emoji);
            if counted {
                total = total + rs[i].count as i64;
            }
            i += 1;
        }
        assert(rs@.take(rs.len() as int) =~= rs@);
        total >= self.min_specific_total as i64
    }
}

/// Accepts messages with at least `min` comments.
#[derive(Debug, Clone, Copy)]
pub struct CommentFilter {
    pub min: i32,
}

impl MessageFilter for CommentFilter {
    open spec fn accepts(&self, msg: MessageInfo) -> bool {
        if self.min <= 0 {
            true
        } else {
            match msg.counters {
                Some(c) => match c.replies {
                    Some(n) => n >= self.min,
                    None => false,
                },
                None => false,
            }
        }
    }

    fn accept(&self, msg: &MessageInfo) -> (r: bool) {
        if self.min <= 0 {
            return true;
        }
        match &msg.counters {
            Some(c) => match c.replies {
                Some(n) => n >= self.min,
                None => false,
            },
            None => false,
        }
    }
}

/// A placeholder rule for a future content classifier: accepts everything.
#[derive(Debug, Clone, Copy)]
pub struct AIFilter;

impl MessageFilter for AIFilter {
    open spec fn accepts(&self, msg: MessageInfo) -> bool {
        true
    }

    fn accept(&self, msg: &MessageInfo) -> (r: bool) {
        true
    }
}

/// One rule of a task's filter.
#[derive(Debug, Clone)]
pub enum FilterRule {
    Reaction(ReactionFilter),
    Comment(CommentFilter),
}

/// Whether `rule` accepts `msg`.
pub open spec fn rule_accepts(rule: FilterRule, msg: MessageInfo) -> bool {
    match rule {
        FilterRule::Reaction(f) => f.accepts(msg),
        FilterRule::Comment(f) => f.accepts(msg),
    }
}

/// The filter of a task: its rules and how they combine. With no rules it
/// accepts every message.
#[derive(Debug, Clone)]
pub struct ChannelFilter {
    pub mode: FilterMode,
    pub filters: Vec<FilterRule>,
}

/// The reaction settings give a rule: some emoji are listed or the minimum is positive.
pub open spec fn reaction_rule_wanted(c: ReactionFilterConfig) -> bool {
    c.specific.len() > 0 || c.min_specific_total > 0
}

/// The configuration asks for a reaction rule.
pub open spec fn wants_reaction_rule(config: FilterConfig) -> bool {
    config.reactions matches Some(r) && reaction_rule_wanted(r)
}

/// The configuration asks for a comment rule: its minimum is positive.
pub open spec fn wants_comment_rule(config: FilterConfig) -> bool {
    config.comments matches Some(c) && c.min > 0
}

impl ChannelFilter {
    /// `self` is the filter that `config` describes.
    pub open spec fn built_from(self, config: FilterConfig) -> bool {
        &&& self.mode == config.mode
        &&& self.filters.len() == (if wants_reaction_rule(config) { 1int } else { 0 }) + (if wants_comment_rule(
            config,
        ) {
            1int
        } else {
            0
        })
        &&& wants_reaction_rule(config) ==> (self.filters[0] matches FilterRule::Reaction(f)
            && f.min_specific_total == config.reactions.unwrap().min_specific_total
            && f.specific.len() == config.reactions.unwrap().specific.len() && forall|i: int|
            0 <= i < f.specific.len() ==> #[trigger] f.specific[i]@ == without_variation_selectors(
                config.reactions.unwrap().specific[i]@,
            ))
        &&& wants_comment_rule(config) ==> (self.filters[if wants_reaction_rule(config) {
            1int
        } else {
            0
        }] matches FilterRule::Comment(f) && f.min == config.comments.unwrap().min)
    }

    /// The filter that a task's filter settings describe: a reaction rule
    /// (emoji normalized) when the reaction settings ask for one, then a
    /// comment rule when the comment minimum is positive.
    pub fn new(config: &FilterConfig) -> (r: Self)
        ensures
            r.built_from(*config),
    {
        let mut filters: Vec<FilterRule> = Vec::new();
        if let Some(reactions_config) = &config.reactions {
            if reactions_config.specific.len() > 0 || reactions_config.min_specific_total > 0 {
                let mut specific: Vec<String> = Vec::new();
                let mut i: usize = 0;
                while i < reactions_config.specific.len()
                    invariant
                        i <= reactions_config.specific.len(),
                        specific.len() == i,
                        forall|k: int|
                            0 <= k < i ==> #[trigger] specific[k]@ == without_variation_selectors(
                                reactions_config.specific[k]@,
                            ),
                    decreases reactions_config.specific.len() - i,
                {
                    specific.push(normalize_emoji(reactions_config.specific[i].as_str()));
                    i += 1;
                }
                filters.push(
                    FilterRule::Reaction(
                        ReactionFilter {
                            specific,
                            min_specific_total: reactions_config.min_specific_total,
                        },
                    ),
                );
            }
        }
        if let Some(comments_config) = &config.comments {
            if comments_config.min > 0 {
                filters.push(FilterRule::Comment(CommentFilter { min: comments_config.min }));
            }
        }
        ChannelFilter { mode: config.mode, filters }
    }

    fn rule_accept(rule: &FilterRule, msg: &MessageInfo) -> (r: bool)
        requires
            msg.wf(),
        ensures
            r == rule_accepts(*rule, *msg),
    {
        match rule {
            FilterRule::Reaction(f) => f.accept(msg),
            FilterRule::Comment(f) => f.accept(msg),
        }
    }
}

impl MessageFilter for ChannelFilter {
    open spec fn accepts(&self, msg: MessageInfo) -> bool {
        if self.filters.len() == 0 {
            true
        } else {
            match self.mode {
                FilterMode::Any => exists|i: int|
                    0 <= i < self.filters.len() && rule_accepts(#[trigger] self.filters[i], msg),
                FilterMode::All => forall|i: int|
                    0 <= i < self.filters.len() ==> rule_accepts(#[trigger] self.filters[i], msg),
            }
        }
    }

    fn accept(&self, msg: &MessageInfo) -> (r: bool) {
        if self.filters.len() == 0 {
            return true;
        }
        let any = match self.mode {
            FilterMode::Any => true,
            FilterMode::All => false,
        };
        let mut i: usize = 0;
        while i < self.filters.len()
            invariant
                i <= self.filters.len(),
                msg.wf(),
                any == (self.mode == FilterMode::Any),
                forall|k: int|
                    0 <= k < i ==> rule_accepts(#[trigger] self.filters[k], *msg) != any,
            decreases self.filters.len() - i,
        {
            if ChannelFilter::rule_accept(&self.filters[i], msg) == any {
                return any;
            }
            i += 1;
        }
        !any
    }
}

impl MessageInfo {
    /// Whether the reaction list is short enough for the reaction rule.
    pub fn fits(&self) -> (r: bool)
        ensures
            r == self.wf(),
    {
        match &self.counters {
            Some(c) => match &c.reactions {
                Some(rs) => rs.len() as u128 <= 0x1_0000_0000u128,
                None => true,
            },
            None => true,
        }
    }
}

/// Removing variation selectors a second time changes nothing.
pub proof fn lemma_normalize_idempotent(s: Seq<char>)
    ensures
        without_variation_selectors(without_variation_selectors(s)) == without_variation_selectors(s),
    decreases s.len(),
{
    if s.len() > 0 {
        lemma_normalize_idempotent(s.drop_last());
        let t = without_variation_selectors(s.drop_last());
        if s.last() != '\u{fe0f}' {
            assert(t.push(s.last()).drop_last() =~= t);
        }
    }
}

/// A filter without rules accepts every message, whatever its mode.
pub proof fn lemma_no_rules_accept_all(f: ChannelFilter, msg: MessageInfo)
    requires
        f.filters.len() == 0,
    ensures
        f.accepts(msg),
{
}

/// A task whose filter settings ask for nothing gets a filter without rules,
/// which forwards every message.
pub proof fn lemma_empty_settings_accept_all(f: ChannelFilter, config: FilterConfig, msg: MessageInfo)
    requires
        f.built_from(config),
        !wants_reaction_rule(config),
        !wants_comment_rule(config),
    ensures
        f.accepts(msg),
{
}

/// With no emoji listed, every reaction counts towards the total.
pub proof fn lemma_all_reactions_count(f: ReactionFilter, rs: Seq<ReactionCount>)
    requires
        f.specific.len() == 0,
    ensures
        f.counted_total(rs) == sum_counts(rs),
    decreases rs.len(),
{
    if rs.len() > 0 {
        lemma_all_reactions_count(f, rs.drop_last());
    }
}

/// The sum of all the counts in `rs`.
pub open spec fn sum_counts(rs: Seq<ReactionCount>) -> int
    decreases rs.len(),
{
    if rs.len() == 0 {
        0
    } else {
        sum_counts(rs.drop_last()) + rs.last().count
    }
}

/// In `all` mode a message passes only when each rule accepts it; in `any`
/// mode when one does; a message that every rule rejects passes only
/// through a filter without rules.
pub proof fn lemma_mode_semantics(f: ChannelFilter, msg: MessageInfo, i: int)
    requires
        0 <= i < f.filters.len(),
    ensures
        f.mode == FilterMode::All && f.accepts(msg) ==> rule_accepts(f.filters[i], msg),
        f.mode == FilterMode::Any && rule_accepts(f.filters[i], msg) ==> f.accepts(msg),
{
}

/// The reactions given to `msg` (none when it carries no reaction results).
pub open spec fn reactions_of(msg: MessageInfo) -> Seq<ReactionCount> {
    match msg.counters {
        Some(c) => match c.reactions {
            Some(rs) => rs@,
            None => Seq::empty(),
        },
        None => Seq::empty(),
    }
}

/// `msg` carries reaction results.
pub open spec fn has_reaction_results(msg: MessageInfo) -> bool {
    msg.counters matches Some(c) && c.reactions is Some
}

proof fn lemma_counted_total_unlisted(f: ReactionFilter, rs: Seq<ReactionCount>)
    requires
        f.specific.len() > 0,
        forall|k: int, j: int|
            0 <= k < rs.len() && 0 <= j < f.specific.len() ==> (#[trigger] f.specific[j])@
                != reaction_text((#[trigger] rs[k]).reaction),
    ensures
        f.counted_total(rs) == 0,
    decreases rs.len(),
{
    if rs.len() > 0 {
        lemma_counted_total_unlisted(f, rs.drop_last());
        assert forall|j: int| 0 <= j < f.specific.len() implies (#[trigger] f.specific[j])@
            != reaction_text(rs.last().reaction) by {
            assert(rs[rs.len() - 1] == rs.last());
        }
    }
}

proof fn lemma_counted_total_listed(f: ReactionFilter, rs: Seq<ReactionCount>)
    requires
        forall|k: int| 0 <= k < rs.len() ==> f.counts((#[trigger] rs[k]).reaction),
    ensures
        f.counted_total(rs) == sum_counts(rs),
    decreases rs.len(),
{
    if rs.len() > 0 {
        assert forall|k: int| 0 <= k < rs.drop_last().len() implies f.counts(
            (#[trigger] rs.drop_last()[k]).reaction,
        ) by {
            assert(rs.drop_last()[k] == rs[k]);
        }
        lemma_counted_total_listed(f, rs.drop_last());
        assert(rs[rs.len() - 1] == rs.last());
    }
}

/// A task filter whose only rule is a reaction rule with listed emoji
/// counts only those emoji: a message none of whose reactions is listed
/// (compared without variation selectors) is rejected when the minimum is
/// positive, however many reactions it has.
pub proof fn lemma_unlisted_reactions_do_not_count(
    f: ChannelFilter,
    config: FilterConfig,
    msg: MessageInfo,
)
    requires
        f.built_from(config),
        config.reactions matches Some(rc) && rc.specific.len() > 0 && rc.min_specific_total > 0,
        !wants_comment_rule(config),
        forall|k: int, j: int|
            0 <= k < reactions_of(msg).len() && 0 <= j < config.reactions.unwrap().specific.len()
                ==> without_variation_selectors(
                (#[trigger] config.reactions.unwrap().specific[j])@,
            ) != reaction_text((#[trigger] reactions_of(msg)[k]).reaction),
    ensures
        !f.accepts(msg),
{
    let rc = config.reactions.unwrap();
    assert(f.filters.len() == 1);
    let g = match f.filters[0] {
        FilterRule::Reaction(g) => g,
        FilterRule::Comment(_) => { return; },
    };
    let rs = reactions_of(msg);
    assert forall|k: int, j: int|
        0 <= k < rs.len() && 0 <= j < g.specific.len() implies (#[trigger] g.specific[j])@
        != reaction_text((#[trigger] rs[k]).reaction) by {
        assert(g.specific[j]@ == without_variation_selectors(rc.specific[j]@));
        assert(without_variation_selectors(rc.specific[j]@) != reaction_text(rs[k].reaction));
    }
    lemma_counted_total_unlisted(g, rs);
    assert(!rule_accepts(f.filters[0], msg));
}

/// A task filter whose only rule is a reaction rule with listed emoji
/// accepts a message whose reactions are all of listed emoji exactly when
/// it carries reaction results and their counts add up to the minimum.
pub proof fn lemma_listed_reactions_count(f: ChannelFilter, config: FilterConfig, msg: MessageInfo)
    requires
        f.built_from(config),
        config.reactions matches Some(rc) && rc.specific.len() > 0,
        !wants_comment_rule(config),
        forall|k: int|
            0 <= k < reactions_of(msg).len() ==> exists|j: int|
                0 <= j < config.reactions.unwrap().specific.len() && without_variation_selectors(
                    (#[trigger] config.reactions.unwrap().specific[j])@,
                ) == reaction_text((#[trigger] reactions_of(msg)[k]).reaction),
    ensures
        f.accepts(msg) == (has_reaction_results(msg) && sum_counts(reactions_of(msg))
            >= config.reactions.unwrap().min_specific_total),
{
    let rc = config.reactions.unwrap();
    assert(f.filters.len() == 1);
    let g = match f.filters[0] {
        FilterRule::Reaction(g) => g,
        FilterRule::Comment(_) => { return; },
    };
    let rs = reactions_of(msg);
    assert forall|k: int| 0 <= k < rs.len() implies g.counts((#[trigger] rs[k]).reaction) by {
        let j = choose|j: int|
            0 <= j < rc.specific.len() && without_variation_selectors(
                (#[trigger] rc.specific[j])@,
            ) == reaction_text(rs[k].reaction);
        assert(g.specific[j]@ == without_variation_selectors(rc.specific[j]@));
    }
    lemma_counted_total_listed(g, rs);
    if f.accepts(msg) {
        assert(rule_accepts(f.filters[0], msg));
    }
    if has_reaction_results(msg) && sum_counts(rs) >= rc.min_specific_total {
        assert(rule_accepts(f.filters[0], msg));
    }
}

} // verus!
