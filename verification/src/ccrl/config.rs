//! Who wants to hear about which engine on CCRL, with per-user rules on tournaments.
use vstd::prelude::*;
use crate::pattern::{regex_compiles, regex_finds, regex_is_match, regex_is_valid};
use crate::summary::{
    diff_summaries, diff_text, distinct_keys, entries_map, format_group, followers_map,
    group_summary, group_view, lemma_entries_map, lemma_entries_map_update, lemma_entries_map_values,
    views,
};
use crate::text::{chars_of, string_from_chars};
use crate::web::{url_is_valid, url_parses};
use crate::config::ConfigError;
use vstd::multiset::Multiset;

verus! {

/// Where the notifier finds its configuration and where it posts.
pub struct Config {
    /// The configuration file's address, a URL that `Url::parse` accepts.
    pub config_url: String,
    pub notify_webhook: String,
    pub log_webhook: Option<String>,
}

/// The configuration from the values of the environment variables `CCRL_CONFIG_URL`,
/// `CCRL_NOTIFY_WEBHOOK` and `LOG_WEBHOOK`; the first must be a URL.
pub fn get_config(config_url: &str, notify_webhook: String, log_webhook: Option<String>) -> (r: Result<
    Config,
    ConfigError,
>)
    ensures
        r is Ok <==> url_parses(config_url@),
        r is Err ==> r == Err::<Config, ConfigError>(ConfigError::InvalidConfigUrl),
        r matches Ok(c) ==> c.config_url@ == config_url@ && c.notify_webhook == notify_webhook
            && c.log_webhook == log_webhook,
{
    if url_is_valid(config_url) {
        Ok(Config { config_url: config_url.to_owned(), notify_webhook, log_webhook })
    } else {
        Err(ConfigError::InvalidConfigUrl)
    }
}

/// What a rule does to a tournament it matches.
#[derive(Debug, Clone, Copy, PartialEq, Eq, Structural)]
pub enum NotifyAction {
    Notify,
    Ignore,
}

/// A pattern over tournament names, and what to do when it matches.
#[derive(Debug)]
pub struct NotifyRule {
    pattern: String,
    action: NotifyAction,
}

impl View for NotifyRule {
    type V = (Seq<char>, NotifyAction);

    closed spec fn view(&self) -> (Seq<char>, NotifyAction) {
        (self.pattern@, self.action)
    }
}

impl NotifyRule {
    /// The pattern compiles.
    #[verifier::type_invariant]
    closed spec fn pattern_compiles(self) -> bool {
        regex_compiles(self.pattern@)
    }

    /// A rule, if its pattern is a regular expression that compiles.
    pub fn new(pattern: &str, action: NotifyAction) -> (r: Option<NotifyRule>)
        ensures
            r is Some <==> regex_compiles(pattern@),
            r matches Some(rule) ==> rule@ == (pattern@, action),
    {
        if regex_is_valid(pattern) {
            Some(NotifyRule { pattern: pattern.to_owned(), action })
        } else {
            None
        }
    }

    /// The pattern, as written.
    pub fn pattern(&self) -> (r: String)
        ensures
            r@ == self@.0,
    {
        self.pattern.clone()
    }

    /// What the rule does to a tournament it matches.
    pub fn action(&self) -> (r: NotifyAction)
        ensures
            r == self@.1,
    {
        self.action
    }

    /// Whether the pattern matches somewhere in `name`.
    pub fn is_match(&self, name: &str) -> (r: bool)
        ensures
            r == regex_finds(self@.0, name@),
    {
        proof {
            use_type_invariant(self);
        }
        regex_is_match(self.pattern.as_str(), name)
    }
}

impl Clone for NotifyRule {
    fn clone(&self) -> (r: Self)
        ensures
            r@ == self@,
    {
        proof {
            use_type_invariant(self);
        }
        NotifyRule { pattern: self.pattern.clone(), action: self.action }
    }
}

/// The views of a list of rules.
pub open spec fn rules_view(rules: Seq<NotifyRule>) -> Seq<(Seq<char>, NotifyAction)> {
    rules.map_values(|r: NotifyRule| r@)
}

/// The first rule whose pattern matches the tournament decides; a tournament that no
/// rule matches is allowed.
pub open spec fn rules_allow(rules: Seq<(Seq<char>, NotifyAction)>, tournament: Seq<char>) -> bool
    decreases rules.len(),
{
    if rules.len() == 0 {
        true
    } else if regex_finds(rules[0].0, tournament) {
        rules[0].1 == NotifyAction::Notify
    } else {
        rules_allow(rules.drop_first(), tournament)
    }
}

/// One user's rules, tried in order.
#[derive(Debug)]
pub struct TournamentRules {
    pub rules: Vec<NotifyRule>,
}

impl View for TournamentRules {
    type V = Seq<(Seq<char>, NotifyAction)>;

    open spec fn view(&self) -> Seq<(Seq<char>, NotifyAction)> {
        rules_view(self.rules@)
    }
}

/// A copy of a list of rules.
pub fn copy_rules(rules: &Vec<NotifyRule>) -> (r: Vec<NotifyRule>)
    ensures
        rules_view(r@) == rules_view(rules@),
{
    let mut r: Vec<NotifyRule> = Vec::new();
    let mut i: usize = 0;
    while i < rules.len()
        invariant
            i <= rules.len(),
            r.len() == i,
            forall|t: int| 0 <= t < i ==> #[trigger] r@[t]@ == rules@[t]@,
        decreases rules.len() - i,
    {
        r.push(rules[i].clone());
        i = i + 1;
    }
    assert(rules_view(r@) =~= rules_view(rules@));
    r
}

impl Clone for TournamentRules {
    fn clone(&self) -> (r: Self)
        ensures
            r@ == self@,
    {
        TournamentRules { rules: copy_rules(&self.rules) }
    }
}

impl TournamentRules {
    /// Whether the user wants to hear about a game of this tournament: the first rule
    /// that matches decides, and with no match the answer is yes.
    pub fn notify_for_tournament(&self, tournament_name: &str) -> (r: bool)
        ensures
            r == rules_allow(self@, tournament_name@),
    {
        let ghost all = self@;
        let mut i: usize = 0;
        assert(all.skip(0) =~= all);
        while i < self.rules.len()
            invariant
                i <= self.rules.len(),
                all == rules_view(self.rules@),
                rules_allow(all, tournament_name@) == rules_allow(all.skip(i as int), tournament_name@),
            decreases self.rules.len() - i,
        {
            let rule = &self.rules[i];
            assert(all.skip(i as int)[0] == rule@);
            assert(all.skip(i as int).drop_first() =~= all.skip(i + 1));
            if rule.is_match(tournament_name) {
                return rule.action() == NotifyAction::Notify;
            }
            i = i + 1;
        }
        assert(all.skip(i as int).len() == 0);
        true
    }

    /// Whether both lists hold the same patterns, as written, with the same actions, in
    /// the same order.
    pub fn same_rules(&self, other: &TournamentRules) -> (r: bool)
        ensures
            r == (self@ == other@),
    {
        if self.rules.len() != other.rules.len() {
            assert(self@.len() != other@.len());
            return false;
        }
        let mut i: usize = 0;
        while i < self.rules.len()
            invariant
                i <= self.rules.len(),
                self.rules.len() == other.rules.len(),
                forall|t: int| 0 <= t < i ==> #[trigger] self@[t] == other@[t],
            decreases self.rules.len() - i,
        {
            let a = &self.rules[i];
            let b = &other.rules[i];
            if a.pattern() != b.pattern() || a.action() != b.action() {
                assert(self@[i as int] != other@[i as int]);
                return false;
            }
            i = i + 1;
        }
        assert(self@ =~= other@);
        true
    }
}

impl PartialEq for TournamentRules {
    fn eq(&self, other: &Self) -> (r: bool) {
        self.same_rules(other)
    }
}

impl vstd::std_specs::cmp::PartialEqSpecImpl for TournamentRules {
    open spec fn obeys_eq_spec() -> bool {
        true
    }

    open spec fn eq_spec(&self, other: &TournamentRules) -> bool {
        self@ == other@
    }
}

/// The first matching rule decides, whatever follows it.
pub proof fn lemma_first_match_decides(
    rules: Seq<(Seq<char>, NotifyAction)>,
    later: Seq<(Seq<char>, NotifyAction)>,
    tournament: Seq<char>,
    i: int,
)
    requires
        0 <= i < rules.len(),
        regex_finds(rules[i].0, tournament),
        forall|k: int| 0 <= k < i ==> !regex_finds(#[trigger] rules[k].0, tournament),
    ensures
        rules_allow(rules + later, tournament) == (rules[i].1 == NotifyAction::Notify),
    decreases i,
{
    if i > 0 {
        assert((rules + later).drop_first() =~= rules.drop_first() + later);
        assert(!regex_finds(rules[0].0, tournament));
        lemma_first_match_decides(rules.drop_first(), later, tournament, i - 1);
    }
}

/// A tournament that no rule matches is allowed.
pub proof fn lemma_no_match_allows(rules: Seq<(Seq<char>, NotifyAction)>, tournament: Seq<char>)
    requires
        forall|k: int| 0 <= k < rules.len() ==> !regex_finds(#[trigger] rules[k].0, tournament),
    ensures
        rules_allow(rules, tournament),
    decreases rules.len(),
{
    if rules.len() > 0 {
        assert(!regex_finds(rules[0].0, tournament));
        assert forall|k: int| 0 <= k < rules.drop_first().len() implies !regex_finds(
            #[trigger] rules.drop_first()[k].0,
            tournament,
        ) by {
            assert(!regex_finds(rules[k + 1].0, tournament));
        }
        lemma_no_match_allows(rules.drop_first(), tournament);
    }
}

/// A user who follows an engine, with the user's tournament rules.
#[derive(Debug)]
pub struct UserNotifyConfig {
    pub user_id: String,
    pub rules: TournamentRules,
}

/// A user id with that user's rules.
pub type UserView = (Seq<char>, Seq<(Seq<char>, NotifyAction)>);

impl View for UserNotifyConfig {
    type V = UserView;

    open spec fn view(&self) -> UserView {
        (self.user_id@, self.rules@)
    }
}

impl Clone for UserNotifyConfig {
    fn clone(&self) -> (r: Self)
        ensures
            r@ == self@,
    {
        UserNotifyConfig { user_id: self.user_id.clone(), rules: self.rules.clone() }
    }
}

impl PartialEq for UserNotifyConfig {
    fn eq(&self, other: &Self) -> (r: bool) {
        self.user_id == other.user_id && self.rules.same_rules(&other.rules)
    }
}

impl vstd::std_specs::cmp::PartialEqSpecImpl for UserNotifyConfig {
    open spec fn obeys_eq_spec() -> bool {
        true
    }

    open spec fn eq_spec(&self, other: &UserNotifyConfig) -> bool {
        self@ == other@
    }
}

/// The views of a list of users.
pub open spec fn users_view(users: Seq<UserNotifyConfig>) -> Seq<UserView> {
    users.map_values(|u: UserNotifyConfig| u@)
}

/// The views of the (engine, users) entries.
pub open spec fn engines_view(v: Seq<(String, Vec<UserNotifyConfig>)>) -> Seq<(Seq<char>, Seq<UserView>)> {
    v.map_values(|e: (String, Vec<UserNotifyConfig>)| (e.0@, users_view(e.1@)))
}

/// For each engine, the users who follow it.
#[derive(Debug)]
pub struct NotifyConfig {
    engines: Vec<(String, Vec<UserNotifyConfig>)>,
}

impl NotifyConfig {
    /// The (engine, users) entries, in the order they are kept.
    pub closed spec fn entries(self) -> Seq<(Seq<char>, Seq<UserView>)> {
        engines_view(self.engines@)
    }

    /// No engine is kept twice.
    #[verifier::type_invariant]
    closed spec fn keys_distinct(self) -> bool {
        distinct_keys(engines_view(self.engines@))
    }
}

impl View for NotifyConfig {
    type V = Map<Seq<char>, Seq<UserView>>;

    open spec fn view(&self) -> Map<Seq<char>, Seq<UserView>> {
        entries_map(self.entries())
    }
}

/// The summary of who follows which engine: one line per engine, in ascending order,
/// "engine: user, user", the users in ascending order.
pub open spec fn ccrl_summary(m: Map<Seq<char>, Seq<UserView>>) -> Seq<char> {
    group_summary(m.map_values(|users: Seq<UserView>| users.map_values(|u: UserView| u.0).to_multiset()))
}

impl NotifyConfig {
    /// The entries, each engine once.
    pub fn engines(&self) -> (r: &Vec<(String, Vec<UserNotifyConfig>)>)
        ensures
            engines_view(r@) == self.entries(),
            distinct_keys(self.entries()),
    {
        proof {
            use_type_invariant(self);
        }
        &self.engines
    }

    /// One line per engine: "engine: user, user", engines and users in ascending order,
    /// the lines separated by '\n'.
    pub fn engines_summary(&self) -> (r: String)
        ensures
            r@ == ccrl_summary(self@),
    {
        proof {
            use_type_invariant(self);
        }
        let ghost ev = engines_view(self.engines@);
        let mut groups: Vec<(Vec<char>, Vec<Vec<char>>)> = Vec::new();
        let mut i: usize = 0;
        while i < self.engines.len()
            invariant
                i <= self.engines.len(),
                ev == engines_view(self.engines@),
                groups.len() == i,
                forall|t: int| 0 <= t < i ==> #[trigger] group_view(groups@)[t] == (ev[t].0, ev[t].1.map_values(|u: UserView| u.0)),
            decreases self.engines.len() - i,
        {
            let users = &self.engines[i].1;
            let mut ids: Vec<Vec<char>> = Vec::new();
            let mut k: usize = 0;
            while k < users.len()
                invariant
                    k <= users.len(),
                    ids.len() == k,
                    forall|t: int| 0 <= t < k ==> #[trigger] ids@[t]@ == users@[t].user_id@,
                decreases users.len() - k,
            {
                ids.push(chars_of(users[k].user_id.as_str()));
                k = k + 1;
            }
            let name = chars_of(self.engines[i].0.as_str());
            let ghost gv0 = group_view(groups@);
            groups.push((name, ids));
            proof {
                assert(views(ids@) =~= ev[i as int].1.map_values(|u: UserView| u.0));
                assert(group_view(groups@)[i as int] == (ev[i as int].0, ev[i as int].1.map_values(|u: UserView| u.0)));
                assert forall|t: int| 0 <= t < i + 1 implies #[trigger] group_view(groups@)[t] == (ev[t].0, ev[t].1.map_values(|u: UserView| u.0)) by {
                    if t < i {
                        assert(group_view(groups@)[t] == gv0[t]);
                    }
                }
            }
            i = i + 1;
        }
        let ghost gv = group_view(groups@);
        proof {
            assert(distinct_keys(gv)) by {
                assert forall|a: int, b: int| 0 <= a < b < gv.len() implies (#[trigger] gv[a]).0 != (#[trigger] gv[b]).0 by {
                    assert(ev[a].0 != ev[b].0);
                }
            }
            lemma_entries_map_values(ev, gv.map_values(|e: (Seq<char>, Seq<Seq<char>>)| e), |users: Seq<UserView>| users.map_values(|u: UserView| u.0));
            assert(gv.map_values(|e: (Seq<char>, Seq<Seq<char>>)| e) =~= gv);
            assert(followers_map(gv) =~= self@.map_values(|users: Seq<UserView>| users.map_values(|u: UserView| u.0).to_multiset()));
        }
        let text = format_group(&groups);
        string_from_chars(&text)
    }

    /// The change from this configuration to `new`, as the summaries' lines that went
    /// (after '-') and came (after '+'), or "No changes".
    pub fn diff_summary(&self, new: &NotifyConfig) -> (r: String)
        ensures
            r@ == diff_text(ccrl_summary(self@), ccrl_summary(new@)),
    {
        let old_text = chars_of(self.engines_summary().as_str());
        let new_text = chars_of(new.engines_summary().as_str());
        string_from_chars(&diff_summaries(&old_text, &new_text))
    }
}

impl NotifyConfig {
    /// Whether both configurations give every engine the same users, in the same order,
    /// with the same rules.
    pub fn same_config(&self, other: &NotifyConfig) -> (r: bool)
        ensures
            r == (self@ == other@),
    {
        proof {
            use_type_invariant(self);
            use_type_invariant(other);
        }
        let ghost a = engines_view(self.engines@);
        let ghost b = engines_view(other.engines@);
        proof {
            lemma_entries_map(a);
            lemma_entries_map(b);
        }
        let mut i: usize = 0;
        while i < self.engines.len()
            invariant
                i <= self.engines.len(),
                a == engines_view(self.engines@),
                b == engines_view(other.engines@),
                entries_map(a).dom() == crate::summary::entry_keys(a).to_set(),
                entries_map(b).dom() == crate::summary::entry_keys(b).to_set(),
                forall|t: int| 0 <= t < a.len() ==> #[trigger] entries_map(a)[a[t].0] == a[t].1,
                forall|t: int| 0 <= t < b.len() ==> #[trigger] entries_map(b)[b[t].0] == b[t].1,
                forall|t: int| 0 <= t < i ==> #[trigger] entries_map(b).dom().contains(a[t].0) && entries_map(b)[a[t].0] == a[t].1,
            decreases self.engines.len() - i,
        {
            let j = find_engine(&other.engines, &self.engines[i].0);
            if j == other.engines.len() {
                proof {
                    assert(crate::summary::entry_keys(a)[i as int] == a[i as int].0);
                    assert(entries_map(a).dom().contains(a[i as int].0));
                    if entries_map(b).dom().contains(a[i as int].0) {
                        let w = choose|w: int| 0 <= w < b.len() && crate::summary::entry_keys(b)[w] == a[i as int].0;
                        assert(b[w].0 == a[i as int].0);
                    }
                }
                return false;
            }
            if !same_users(&self.engines[i].1, &other.engines[j].1) {
                proof {
                    assert(entries_map(b)[b[j as int].0] == b[j as int].1);
                    assert(entries_map(a)[a[i as int].0] == a[i as int].1);
                    assert(b[j as int].0 == a[i as int].0);
                }
                return false;
            }
            proof {
                assert(a[i as int] == (self.engines@[i as int].0@, users_view(self.engines@[i as int].1@)));
                assert(b[j as int] == (other.engines@[j as int].0@, users_view(other.engines@[j as int].1@)));
                assert(b[j as int].0 == a[i as int].0);
                assert(crate::summary::entry_keys(b)[j as int] == b[j as int].0);
                assert(crate::summary::entry_keys(b).to_set().contains(b[j as int].0));
                assert(entries_map(b)[b[j as int].0] == b[j as int].1);
                assert(b[j as int].1 == a[i as int].1);
                assert forall|t: int| 0 <= t < i + 1 implies #[trigger] entries_map(b).dom().contains(a[t].0)
                    && entries_map(b)[a[t].0] == a[t].1 by {
                    if t == i {
                        assert(entries_map(b).dom().contains(b[j as int].0));
                    }
                }
            }
            i = i + 1;
        }
        let mut j: usize = 0;
        while j < other.engines.len()
            invariant
                j <= other.engines.len(),
                a == engines_view(self.engines@),
                b == engines_view(other.engines@),
                entries_map(a).dom() == crate::summary::entry_keys(a).to_set(),
                entries_map(b).dom() == crate::summary::entry_keys(b).to_set(),
                forall|t: int| 0 <= t < a.len() ==> #[trigger] entries_map(b).dom().contains(a[t].0) && entries_map(b)[a[t].0] == a[t].1,
                forall|t: int| 0 <= t < j ==> #[trigger] entries_map(a).dom().contains(b[t].0),
            decreases other.engines.len() - j,
        {
            let k = find_engine(&self.engines, &other.engines[j].0);
            if k == self.engines.len() {
                proof {
                    assert(crate::summary::entry_keys(b)[j as int] == b[j as int].0);
                    assert(entries_map(b).dom().contains(b[j as int].0));
                    if entries_map(a).dom().contains(b[j as int].0) {
                        let w = choose|w: int| 0 <= w < a.len() && crate::summary::entry_keys(a)[w] == b[j as int].0;
                        assert(a[w].0 == b[j as int].0);
                    }
                }
                return false;
            }
            proof {
                assert(a[k as int].0 == b[j as int].0);
                assert(crate::summary::entry_keys(a)[k as int] == a[k as int].0);
            }
            j = j + 1;
        }
        proof {
            assert forall|key: Seq<char>| #[trigger] entries_map(a).dom().contains(key) <==> entries_map(b).dom().contains(key) by {
                if entries_map(a).dom().contains(key) {
                    let w = choose|w: int| 0 <= w < a.len() && crate::summary::entry_keys(a)[w] == key;
                    assert(a[w].0 == key);
                }
                if entries_map(b).dom().contains(key) {
                    let w = choose|w: int| 0 <= w < b.len() && crate::summary::entry_keys(b)[w] == key;
                    assert(b[w].0 == key);
                }
            }
            assert forall|key: Seq<char>| #[trigger] entries_map(a).dom().contains(key) implies entries_map(a)[key] == entries_map(b)[key] by {
                let w = choose|w: int| 0 <= w < a.len() && crate::summary::entry_keys(a)[w] == key;
                assert(a[w].0 == key);
            }
            assert(entries_map(a) =~= entries_map(b));
        }
        true
    }
}

/// Where `name` stands among the entries' engines, or the number of entries.
fn find_engine(entries: &Vec<(String, Vec<UserNotifyConfig>)>, name: &String) -> (r: usize)
    ensures
        r <= entries.len(),
        r < entries.len() ==> entries@[r as int].0@ == name@,
        r == entries.len() ==> forall|t: int| 0 <= t < entries.len() ==> #[trigger] entries@[t].0@ != name@,
{
    let mut j: usize = 0;
    while j < entries.len()
        invariant
            j <= entries.len(),
            forall|t: int| 0 <= t < j ==> #[trigger] entries@[t].0@ != name@,
        decreases entries.len() - j,
    {
        if entries[j].0 == *name {
            return j;
        }
        j = j + 1;
    }
    j
}

/// Whether two lists hold equal users in the same order.
fn same_users(a: &Vec<UserNotifyConfig>, b: &Vec<UserNotifyConfig>) -> (r: bool)
    ensures
        r == (users_view(a@) == users_view(b@)),
{
    if a.len() != b.len() {
        assert(users_view(a@).len() != users_view(b@).len());
        return false;
    }
    let mut i: usize = 0;
    while i < a.len()
        invariant
            i <= a.len(),
            a.len() == b.len(),
            forall|t: int| 0 <= t < i ==> #[trigger] a@[t]@ == b@[t]@,
        decreases a.len() - i,
    {
        if !(a[i].user_id == b[i].user_id && a[i].rules.same_rules(&b[i].rules)) {
            assert(users_view(a@)[i as int] != users_view(b@)[i as int]);
            return false;
        }
        i = i + 1;
    }
    assert(users_view(a@) =~= users_view(b@));
    true
}

impl PartialEq for NotifyConfig {
    fn eq(&self, other: &Self) -> (r: bool) {
        self.same_config(other)
    }
}

impl vstd::std_specs::cmp::PartialEqSpecImpl for NotifyConfig {
    open spec fn obeys_eq_spec() -> bool {
        true
    }

    open spec fn eq_spec(&self, other: &NotifyConfig) -> bool {
        self@ == other@
    }
}

/// One user's part of the configuration file: the engines followed and the rules.
pub struct UserConfig {
    pub engines: Vec<String>,
    pub rules: Vec<NotifyRule>,
}

/// The engines a user follows, with the user's rules.
pub type UserConfigView = (Seq<Seq<char>>, Seq<(Seq<char>, NotifyAction)>);

impl View for UserConfig {
    type V = UserConfigView;

    open spec fn view(&self) -> UserConfigView {
        (self.engines@.map_values(|e: String| e@), rules_view(self.rules@))
    }
}

/// The configuration file: each user with what that user follows, in the order the
/// file was read.
pub struct ConfigFile {
    pub users: Vec<(String, UserConfig)>,
}

impl View for ConfigFile {
    type V = Seq<(Seq<char>, UserConfigView)>;

    open spec fn view(&self) -> Seq<(Seq<char>, UserConfigView)> {
        self.users@.map_values(|u: (String, UserConfig)| (u.0@, u.1@))
    }
}

/// `user` added at the end of `engine`'s users.
pub open spec fn add_follower(m: Map<Seq<char>, Seq<UserView>>, engine: Seq<char>, user: UserView) -> Map<
    Seq<char>,
    Seq<UserView>,
> {
    m.insert(
        engine,
        if m.contains_key(engine) {
            m[engine].push(user)
        } else {
            seq![user]
        },
    )
}

/// `user` added to each engine of the list, in order (twice to an engine listed twice).
pub open spec fn add_user(m: Map<Seq<char>, Seq<UserView>>, engines: Seq<Seq<char>>, user: UserView) -> Map<
    Seq<char>,
    Seq<UserView>,
>
    decreases engines.len(),
{
    if engines.len() == 0 {
        m
    } else {
        add_follower(add_user(m, engines.drop_last(), user), engines.last(), user)
    }
}

/// For each engine named in the file, its users in the order the file was read, each
/// with that user's rules.
pub open spec fn followers_by_engine(users: Seq<(Seq<char>, UserConfigView)>) -> Map<Seq<char>, Seq<UserView>>
    decreases users.len(),
{
    if users.len() == 0 {
        Map::empty()
    } else {
        add_user(followers_by_engine(users.drop_last()), users.last().1.0, (users.last().0, users.last().1.1))
    }
}

/// Adds `user` at the end of `engine`'s users.
fn add_follower_entry(entries: &mut Vec<(String, Vec<UserNotifyConfig>)>, engine: &String, user: &UserNotifyConfig)
    requires
        distinct_keys(engines_view(old(entries)@)),
    ensures
        distinct_keys(engines_view(final(entries)@)),
        entries_map(engines_view(final(entries)@)) == add_follower(entries_map(engines_view(old(entries)@)), engine@, user@),
{
    let ghost s = engines_view(entries@);
    proof {
        lemma_entries_map(s);
    }
    let j = find_engine(entries, engine);
    if j < entries.len() {
        let (key, mut users) = entries.remove(j);
        let ghost old_users = users_view(users@);
        users.push(user.clone());
        assert(users_view(users@) =~= old_users.push(user@));
        entries.insert(j, (key, users));
        proof {
            assert(engines_view(entries@) =~= s.update(j as int, (s[j as int].0, old_users.push(user@))));
            lemma_entries_map_update(s, j as int, old_users.push(user@));
            assert(entries_map(s)[s[j as int].0] == s[j as int].1);
            assert(crate::summary::entry_keys(s)[j as int] == s[j as int].0);
        }
    } else {
        let mut users: Vec<UserNotifyConfig> = Vec::new();
        users.push(user.clone());
        entries.push((engine.clone(), users));
        proof {
            assert(users_view(users@) =~= seq![user@]);
            assert(engines_view(entries@) =~= s.push((engine@, seq![user@])));
            assert(engines_view(entries@).drop_last() =~= s);
            if entries_map(s).dom().contains(engine@) {
                let w = choose|w: int| 0 <= w < s.len() && crate::summary::entry_keys(s)[w] == engine@;
                assert(s[w].0 == engine@);
            }
            let u = engines_view(entries@);
            assert forall|a: int, b: int| 0 <= a < b < u.len() implies (#[trigger] u[a]).0 != (#[trigger] u[b]).0 by {
                if b < s.len() {
                    assert(s[a].0 != s[b].0);
                } else {
                    assert(s[a].0 != engine@);
                }
            }
        }
    }
}

/// For each engine that some user follows, those users, in the order the file lists
/// them (a user who lists an engine twice is added twice), each with the user's rules.
pub fn get_notify_config(config_file: &ConfigFile) -> (r: NotifyConfig)
    ensures
        r@ == followers_by_engine(config_file@),
{
    let ghost users = config_file@;
    let mut entries: Vec<(String, Vec<UserNotifyConfig>)> = Vec::new();
    assert(entries_map(engines_view(entries@)) =~= followers_by_engine(users.take(0)));
    let mut i: usize = 0;
    while i < config_file.users.len()
        invariant
            i <= config_file.users.len(),
            users == config_file@,
            distinct_keys(engines_view(entries@)),
            entries_map(engines_view(entries@)) == followers_by_engine(users.take(i as int)),
        decreases config_file.users.len() - i,
    {
        let name = &config_file.users[i].0;
        let cfg = &config_file.users[i].1;
        let user = UserNotifyConfig { user_id: name.clone(), rules: TournamentRules { rules: copy_rules(&cfg.rules) } };
        let ghost engines = cfg@.0;
        let ghost start = entries_map(engines_view(entries@));
        let mut k: usize = 0;
        while k < cfg.engines.len()
            invariant
                k <= cfg.engines.len(),
                engines == cfg@.0,
                distinct_keys(engines_view(entries@)),
                entries_map(engines_view(entries@)) == add_user(start, engines.take(k as int), user@),
            decreases cfg.engines.len() - k,
        {
            add_follower_entry(&mut entries, &cfg.engines[k], &user);
            proof {
                assert(engines.take(k + 1).drop_last() =~= engines.take(k as int));
                assert(engines.take(k + 1).last() == cfg.engines@[k as int]@);
            }
            k = k + 1;
        }
        proof {
            assert(engines.take(k as int) =~= engines);
            assert(users.take(i + 1).drop_last() =~= users.take(i as int));
            assert(users.take(i + 1).last() == users[i as int]);
            assert(user@ == (users[i as int].0, users[i as int].1.1));
        }
        i = i + 1;
    }
    assert(users.take(config_file.users.len() as int) =~= users);
    NotifyConfig { engines: entries }
}

/// A sequence with one more element holds what it held, and that element.
proof fn lemma_push_contains<A>(s: Seq<A>, a: A, x: A)
    ensures
        s.push(a).contains(x) <==> (s.contains(x) || x == a),
{
    if s.push(a).contains(x) {
        let i = choose|i: int| 0 <= i < s.push(a).len() && s.push(a)[i] == x;
        if i < s.len() {
            assert(s[i] == x);
        }
    }
    if s.contains(x) {
        let i = choose|i: int| 0 <= i < s.len() && s[i] == x;
        assert(s.push(a)[i] == x);
    }
    if x == a {
        assert(s.push(a)[s.len() as int] == x);
    }
}

/// Adding a user to a list of engines: an engine has users when it had some or is
/// listed, and a user follows it when it did before or is the one added to it.
proof fn lemma_add_user_follows(
    m: Map<Seq<char>, Seq<UserView>>,
    engines: Seq<Seq<char>>,
    user: UserView,
    e: Seq<char>,
    x: UserView,
)
    ensures
        add_user(m, engines, user).contains_key(e) <==> (m.contains_key(e) || engines.contains(e)),
        (add_user(m, engines, user).contains_key(e) && add_user(m, engines, user)[e].contains(x)) <==> ((
        m.contains_key(e) && m[e].contains(x)) || (engines.contains(e) && x == user)),
    decreases engines.len(),
{
    if engines.len() > 0 {
        let rest = engines.drop_last();
        lemma_add_user_follows(m, rest, user, e, x);
        lemma_push_contains(rest, engines.last(), e);
        assert(rest.push(engines.last()) =~= engines);
        let prev = add_user(m, rest, user);
        if e == engines.last() && prev.contains_key(e) {
            lemma_push_contains(prev[e], user, x);
        }
        if e == engines.last() && !prev.contains_key(e) {
            lemma_push_contains(Seq::<UserView>::empty(), user, x);
            assert(seq![user] =~= Seq::<UserView>::empty().push(user));
        }
    }
}

/// Who follows an engine, read from the configuration file: an engine has followers
/// exactly when some user lists it, and a user, with that user's rules, follows it
/// exactly when the user lists it.
pub proof fn lemma_follows_iff_listed(users: Seq<(Seq<char>, UserConfigView)>, engine: Seq<char>, user: UserView)
    ensures
        followers_by_engine(users).contains_key(engine) <==> exists|i: int|
            0 <= i < users.len() && (#[trigger] users[i]).1.0.contains(engine),
        (followers_by_engine(users).contains_key(engine) && followers_by_engine(users)[engine].contains(user))
            <==> exists|i: int|
            0 <= i < users.len() && (#[trigger] users[i]).1.0.contains(engine) && (users[i].0, users[i].1.1)
                == user,
    decreases users.len(),
{
    if users.len() > 0 {
        let rest = users.drop_last();
        let last = users.last();
        lemma_follows_iff_listed(rest, engine, user);
        lemma_add_user_follows(followers_by_engine(rest), last.1.0, (last.0, last.1.1), engine, user);
        if exists|i: int| 0 <= i < rest.len() && (#[trigger] rest[i]).1.0.contains(engine) {
            let i = choose|i: int| 0 <= i < rest.len() && (#[trigger] rest[i]).1.0.contains(engine);
            assert(users[i] == rest[i]);
        }
        if exists|i: int| 0 <= i < users.len() && (#[trigger] users[i]).1.0.contains(engine) {
            let i = choose|i: int| 0 <= i < users.len() && (#[trigger] users[i]).1.0.contains(engine);
            if i < rest.len() {
                assert(rest[i] == users[i]);
            }
        }
        if exists|i: int|
            0 <= i < rest.len() && (#[trigger] rest[i]).1.0.contains(engine) && (rest[i].0, rest[i].1.1) == user {
            let i = choose|i: int|
                0 <= i < rest.len() && (#[trigger] rest[i]).1.0.contains(engine) && (rest[i].0, rest[i].1.1)
                    == user;
            assert(users[i] == rest[i]);
        }
        if exists|i: int|
            0 <= i < users.len() && (#[trigger] users[i]).1.0.contains(engine) && (users[i].0, users[i].1.1)
                == user {
            let i = choose|i: int|
                0 <= i < users.len() && (#[trigger] users[i]).1.0.contains(engine) && (users[i].0, users[i].1.1)
                    == user;
            if i < rest.len() {
                assert(rest[i] == users[i]);
            }
        }
    }
}

} // verus!
