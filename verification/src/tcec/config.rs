//! Who wants to hear about which engine in TCEC and in AlphaBeta (the TCEC "cup"
//! broadcast on ctv), with no further rules.
use vstd::prelude::*;
use crate::config::ConfigError;
use crate::summary::{
    diff_summaries, diff_text, distinct_keys, entries_map, entry_keys, followers_distinct,
    format_group, group_view, lemma_entries_map, lemma_set_group_summary,
    set_group_summary, views,
};
use crate::text::{chars_of, contains_string, push_chars, push_str, string_from_chars, string_views};
use crate::web::{url_is_valid, url_parses};

verus! {

/// Where the notifier finds its configuration and where it posts.
pub struct Config {
    /// The configuration file's address, a URL that `Url::parse` accepts.
    pub config_url: String,
    pub tcec_notify_webhook: String,
    pub alphabeta_notify_webhook: String,
    pub log_webhook: Option<String>,
}

/// The configuration from the values of `TCEC_CONFIG_URL`, `TCEC_NOTIFY_WEBHOOK`,
/// `ALPHABETA_NOTIFY_WEBHOOK` and `LOG_WEBHOOK`; the first must be a URL.
pub fn get_config(
    config_url: &str,
    tcec_notify_webhook: String,
    alphabeta_notify_webhook: String,
    log_webhook: Option<String>,
) -> (r: Result<Config, ConfigError>)
    ensures
        r is Ok <==> url_parses(config_url@),
        r is Err ==> r == Err::<Config, ConfigError>(ConfigError::InvalidConfigUrl),
        r matches Ok(c) ==> c.config_url@ == config_url@ && c.tcec_notify_webhook == tcec_notify_webhook
            && c.alphabeta_notify_webhook == alphabeta_notify_webhook && c.log_webhook
            == log_webhook,
{
    if url_is_valid(config_url) {
        Ok(
            Config {
                config_url: config_url.to_owned(),
                tcec_notify_webhook,
                alphabeta_notify_webhook,
                log_webhook,
            },
        )
    } else {
        Err(ConfigError::InvalidConfigUrl)
    }
}

/// The (engine, followers) entries with the followers as a list.
pub open spec fn set_entries(v: Seq<(String, Vec<String>)>) -> Seq<(Seq<char>, Seq<Seq<char>>)> {
    v.map_values(|e: (String, Vec<String>)| (e.0@, string_views(e.1@)))
}

/// The map from each engine to its set of followers.
pub open spec fn set_group_view(v: Seq<(String, Vec<String>)>) -> Map<Seq<char>, Set<Seq<char>>> {
    entries_map(set_entries(v)).map_values(|a: Seq<Seq<char>>| a.to_set())
}

/// No engine kept twice, no follower twice under one engine.
pub open spec fn set_group_wf(v: Seq<(String, Vec<String>)>) -> bool {
    distinct_keys(set_entries(v)) && followers_distinct(set_entries(v))
}

/// For TCEC and for AlphaBeta, each engine with the set of users who follow it.
#[derive(Debug)]
pub struct NotifyConfig {
    tcec_engines: Vec<(String, Vec<String>)>,
    alphabeta_engines: Vec<(String, Vec<String>)>,
}

impl NotifyConfig {
    /// The TCEC (engine, followers) entries, in the order they are kept.
    pub closed spec fn tcec_entries(self) -> Seq<(Seq<char>, Seq<Seq<char>>)> {
        set_entries(self.tcec_engines@)
    }

    /// The AlphaBeta (engine, followers) entries, in the order they are kept.
    pub closed spec fn alphabeta_entries(self) -> Seq<(Seq<char>, Seq<Seq<char>>)> {
        set_entries(self.alphabeta_engines@)
    }
}

impl View for NotifyConfig {
    type V = (Map<Seq<char>, Set<Seq<char>>>, Map<Seq<char>, Set<Seq<char>>>);

    closed spec fn view(&self) -> (Map<Seq<char>, Set<Seq<char>>>, Map<Seq<char>, Set<Seq<char>>>) {
        (set_group_view(self.tcec_engines@), set_group_view(self.alphabeta_engines@))
    }
}

/// The summary of both groups: "TCEC:", its lines, "AlphaBeta:", its lines.
pub open spec fn tcec_summary(v: (Map<Seq<char>, Set<Seq<char>>>, Map<Seq<char>, Set<Seq<char>>>)) -> Seq<char> {
    "TCEC:\n"@ + set_group_summary(v.0) + "\nAlphaBeta:\n"@ + set_group_summary(v.1)
}

/// The summary lines of one group.
fn format_set_group(v: &Vec<(String, Vec<String>)>) -> (r: Vec<char>)
    requires
        set_group_wf(v@),
    ensures
        r@ == set_group_summary(set_group_view(v@)),
{
    let ghost se = set_entries(v@);
    let mut groups: Vec<(Vec<char>, Vec<Vec<char>>)> = Vec::new();
    let mut i: usize = 0;
    while i < v.len()
        invariant
            i <= v.len(),
            se == set_entries(v@),
            groups.len() == i,
            forall|t: int| 0 <= t < i ==> #[trigger] group_view(groups@)[t] == se[t],
        decreases v.len() - i,
    {
        let users = &v[i].1;
        let mut ids: Vec<Vec<char>> = Vec::new();
        let mut k: usize = 0;
        while k < users.len()
            invariant
                k <= users.len(),
                ids.len() == k,
                forall|t: int| 0 <= t < k ==> #[trigger] ids@[t]@ == users@[t]@,
            decreases users.len() - k,
        {
            ids.push(chars_of(users[k].as_str()));
            k = k + 1;
        }
        let name = chars_of(v[i].0.as_str());
        let ghost gv0 = group_view(groups@);
        groups.push((name, ids));
        proof {
            assert(views(ids@) =~= string_views(users@));
            assert forall|t: int| 0 <= t < i + 1 implies #[trigger] group_view(groups@)[t] == se[t] by {
                if t < i {
                    assert(group_view(groups@)[t] == gv0[t]);
                }
            }
        }
        i = i + 1;
    }
    assert(group_view(groups@) =~= se);
    proof {
        lemma_set_group_summary(se);
    }
    format_group(&groups)
}

impl NotifyConfig {
    /// "TCEC:", the TCEC lines, "AlphaBeta:", the AlphaBeta lines, separated by '\n';
    /// each line "engine: user, user", engines and users in ascending order.
    pub fn engines_summary(&self) -> (r: String)
        ensures
            r@ == tcec_summary(self@),
    {
        proof {
            use_type_invariant(self);
        }
        let mut text = chars_of("TCEC:\n");
        push_chars(&mut text, &format_set_group(&self.tcec_engines));
        push_str(&mut text, "\nAlphaBeta:\n");
        push_chars(&mut text, &format_set_group(&self.alphabeta_engines));
        string_from_chars(&text)
    }

    /// The change from this configuration to `new`, as the summaries' lines that went
    /// (after '-') and came (after '+'), or "No changes".
    pub fn diff_summary(&self, new: &NotifyConfig) -> (r: String)
        ensures
            r@ == diff_text(tcec_summary(self@), tcec_summary(new@)),
    {
        let old_text = chars_of(self.engines_summary().as_str());
        let new_text = chars_of(new.engines_summary().as_str());
        string_from_chars(&diff_summaries(&old_text, &new_text))
    }

    /// The entries of both groups are well formed.
    #[verifier::type_invariant]
    closed spec fn wf(self) -> bool {
        set_group_wf(self.tcec_engines@) && set_group_wf(self.alphabeta_engines@)
    }

    /// The TCEC entries: each engine once, with its followers, each once.
    pub fn tcec_engines(&self) -> (r: &Vec<(String, Vec<String>)>)
        ensures
            set_group_wf(r@),
            set_group_view(r@) == self@.0,
            set_entries(r@) == self.tcec_entries(),
    {
        proof {
            use_type_invariant(self);
        }
        &self.tcec_engines
    }

    /// The AlphaBeta entries: each engine once, with its followers, each once.
    pub fn alphabeta_engines(&self) -> (r: &Vec<(String, Vec<String>)>)
        ensures
            set_group_wf(r@),
            set_group_view(r@) == self@.1,
            set_entries(r@) == self.alphabeta_entries(),
    {
        proof {
            use_type_invariant(self);
        }
        &self.alphabeta_engines
    }

    /// Whether the TCEC groups agree; the AlphaBeta groups are not compared.
    pub fn same_tcec_engines(&self, other: &NotifyConfig) -> (r: bool)
        ensures
            r == (self@.0 == other@.0),
    {
        proof {
            use_type_invariant(self);
            use_type_invariant(other);
        }
        same_set_group(&self.tcec_engines, &other.tcec_engines)
    }
}

impl PartialEq for NotifyConfig {
    fn eq(&self, other: &Self) -> (r: bool) {
        self.same_tcec_engines(other)
    }
}

impl vstd::std_specs::cmp::PartialEqSpecImpl for NotifyConfig {
    open spec fn obeys_eq_spec() -> bool {
        true
    }

    open spec fn eq_spec(&self, other: &NotifyConfig) -> bool {
        self@.0 == other@.0
    }
}

/// Whether every element of `a` is in `b`.
fn all_in(a: &Vec<String>, b: &Vec<String>) -> (r: bool)
    ensures
        r == (forall|x: Seq<char>| #[trigger] string_views(a@).contains(x) ==> string_views(b@).contains(x)),
{
    let mut i: usize = 0;
    while i < a.len()
        invariant
            i <= a.len(),
            forall|t: int| 0 <= t < i ==> #[trigger] string_views(b@).contains(a@[t]@),
        decreases a.len() - i,
    {
        if !contains_string(b, &a[i]) {
            assert(string_views(a@)[i as int] == a@[i as int]@);
            assert(string_views(a@).contains(a@[i as int]@));
            return false;
        }
        i = i + 1;
    }
    assert forall|x: Seq<char>| #[trigger] string_views(a@).contains(x) implies string_views(b@).contains(x) by {
        let t = choose|t: int| 0 <= t < a.len() && string_views(a@)[t] == x;
        assert(string_views(b@).contains(a@[t]@));
    }
    true
}

/// Where `name` stands among the entries' engines, or the number of entries.
fn find_key(entries: &Vec<(String, Vec<String>)>, name: &String) -> (r: usize)
    ensures
        r <= entries.len(),
        r < entries.len() ==> entries@[r as int].0@ == name@,
        r == entries.len() ==> forall|t: int| 0 <= t < entries.len() ==> #[trigger] entries@[t].0@ != name@,
{
    let mut j: usize = 0;
    while j < entries.len()
        invariant
            j <= entries.len(),
            forall|t: int| 0 <= t < j ==> #[trigger] entries@[t].0@ != name@,
        decreases entries.len() - j,
    {
        if entries[j].0 == *name {
            return j;
        }
        j = j + 1;
    }
    j
}

/// What the entries say of the engine at position `i`: the engine is a key, with
/// that entry's followers as its set.
pub proof fn lemma_set_group_at(v: Seq<(String, Vec<String>)>, i: int)
    requires
        set_group_wf(v),
        0 <= i < v.len(),
    ensures
        set_group_view(v).dom().contains(v[i].0@),
        set_group_view(v)[v[i].0@] == string_views(v[i].1@).to_set(),
{
    let se = set_entries(v);
    lemma_entries_map(se);
    assert(se[i] == (v[i].0@, string_views(v[i].1@)));
    assert(entry_keys(se)[i] == v[i].0@);
    assert(entry_keys(se).to_set().contains(v[i].0@));
}

/// A key of the map is the engine of some entry.
pub proof fn lemma_set_group_key(v: Seq<(String, Vec<String>)>, k: Seq<char>)
    requires
        set_group_wf(v),
        set_group_view(v).dom().contains(k),
    ensures
        exists|i: int| 0 <= i < v.len() && #[trigger] v[i].0@ == k,
{
    let se = set_entries(v);
    lemma_entries_map(se);
    let w = choose|w: int| 0 <= w < entry_keys(se).len() && entry_keys(se)[w] == k;
    assert(v[w].0@ == se[w].0);
}

/// `mb` has the key, with the value that `ma` gives it.
spec fn agrees_at(ma: Map<Seq<char>, Set<Seq<char>>>, mb: Map<Seq<char>, Set<Seq<char>>>, k: Seq<char>) -> bool {
    mb.dom().contains(k) && mb[k] == ma[k]
}

/// Whether two groups map the same engines to the same sets of followers.
fn same_set_group(a: &Vec<(String, Vec<String>)>, b: &Vec<(String, Vec<String>)>) -> (r: bool)
    requires
        set_group_wf(a@),
        set_group_wf(b@),
    ensures
        r == (set_group_view(a@) == set_group_view(b@)),
{
    let ghost ma = set_group_view(a@);
    let ghost mb = set_group_view(b@);
    let mut i: usize = 0;
    while i < a.len()
        invariant
            i <= a.len(),
            set_group_wf(a@),
            set_group_wf(b@),
            ma == set_group_view(a@),
            mb == set_group_view(b@),
            forall|t: int| 0 <= t < i ==> agrees_at(ma, mb, #[trigger] a@[t].0@),
        decreases a.len() - i,
    {
        proof {
            lemma_set_group_at(a@, i as int);
        }
        let j = find_key(b, &a[i].0);
        if j == b.len() {
            proof {
                if mb.dom().contains(a@[i as int].0@) {
                    lemma_set_group_key(b@, a@[i as int].0@);
                }
            }
            return false;
        }
        proof {
            lemma_set_group_at(b@, j as int);
        }
        let sub = all_in(&a[i].1, &b[j].1);
        let sup = all_in(&b[j].1, &a[i].1);
        if !(sub && sup) {
            proof {
                let sa = string_views(a@[i as int].1@);
                let sb = string_views(b@[j as int].1@);
                if ma[a@[i as int].0@] == mb[a@[i as int].0@] {
                    assert(sa.to_set() == sb.to_set());
                    if !sub {
                        let x = choose|x: Seq<char>| #[trigger] sa.contains(x) && !sb.contains(x);
                        assert(sa.to_set().contains(x));
                    } else {
                        let x = choose|x: Seq<char>| #[trigger] sb.contains(x) && !sa.contains(x);
                        assert(sb.to_set().contains(x));
                    }
                }
            }
            return false;
        }
        proof {
            let sa = string_views(a@[i as int].1@);
            let sb = string_views(b@[j as int].1@);
            assert(sa.to_set() =~= sb.to_set());
            assert(mb.dom().contains(a@[i as int].0@));
            assert(mb[a@[i as int].0@] == ma[a@[i as int].0@]);
        }
        i = i + 1;
    }
    let mut j: usize = 0;
    while j < b.len()
        invariant
            j <= b.len(),
            set_group_wf(a@),
            set_group_wf(b@),
            ma == set_group_view(a@),
            mb == set_group_view(b@),
            forall|t: int| 0 <= t < a.len() ==> agrees_at(ma, mb, #[trigger] a@[t].0@),
            forall|t: int| 0 <= t < j ==> #[trigger] ma.dom().contains(b@[t].0@),
        decreases b.len() - j,
    {
        proof {
            lemma_set_group_at(b@, j as int);
        }
        let k = find_key(a, &b[j].0);
        if k == a.len() {
            proof {
                if ma.dom().contains(b@[j as int].0@) {
                    lemma_set_group_key(a@, b@[j as int].0@);
                }
            }
            return false;
        }
        proof {
            lemma_set_group_at(a@, k as int);
        }
        j = j + 1;
    }
    proof {
        assert forall|key: Seq<char>| #[trigger] ma.dom().contains(key) <==> mb.dom().contains(key) by {
            if ma.dom().contains(key) {
                lemma_set_group_key(a@, key);
                let w = choose|w: int| 0 <= w < a.len() && #[trigger] a@[w].0@ == key;
                assert(agrees_at(ma, mb, a@[w].0@));
            }
            if mb.dom().contains(key) {
                lemma_set_group_key(b@, key);
                let w = choose|w: int| 0 <= w < b.len() && #[trigger] b@[w].0@ == key;
            }
        }
        assert forall|key: Seq<char>| #[trigger] ma.dom().contains(key) implies ma[key] == mb[key] by {
            lemma_set_group_key(a@, key);
            let w = choose|w: int| 0 <= w < a.len() && #[trigger] a@[w].0@ == key;
            assert(agrees_at(ma, mb, a@[w].0@));
        }
        assert(ma =~= mb);
    }
    true
}

/// The configuration file: for TCEC and for AlphaBeta, each user with the engines the
/// user follows.
pub struct ConfigFile {
    pub tcec_users: Vec<(String, Vec<String>)>,
    pub alphabeta_users: Vec<(String, Vec<String>)>,
}

/// Each user with the set of engines followed.
pub open spec fn users_view(v: Seq<(String, Vec<String>)>) -> Seq<(Seq<char>, Set<Seq<char>>)> {
    v.map_values(|u: (String, Vec<String>)| (u.0@, string_views(u.1@).to_set()))
}

impl View for ConfigFile {
    type V = (Seq<(Seq<char>, Set<Seq<char>>)>, Seq<(Seq<char>, Set<Seq<char>>)>);

    open spec fn view(&self) -> (Seq<(Seq<char>, Set<Seq<char>>)>, Seq<(Seq<char>, Set<Seq<char>>)>) {
        (users_view(self.tcec_users@), users_view(self.alphabeta_users@))
    }
}

/// Some user follows the engine.
pub open spec fn listed(users: Seq<(Seq<char>, Set<Seq<char>>)>, engine: Seq<char>) -> bool {
    exists|i: int| 0 <= i < users.len() && (#[trigger] users[i]).1.contains(engine)
}

/// The users who follow the engine.
pub open spec fn followers_of(users: Seq<(Seq<char>, Set<Seq<char>>)>, engine: Seq<char>) -> Set<Seq<char>> {
    Set::new(
        |u: Seq<char>|
            exists|i: int| 0 <= i < users.len() && (#[trigger] users[i]).0 == u && users[i].1.contains(engine),
    )
}

/// Each engine that some user follows, with the set of users who follow it.
pub open spec fn engine_followers(users: Seq<(Seq<char>, Set<Seq<char>>)>) -> Map<Seq<char>, Set<Seq<char>>> {
    Map::new(|e: Seq<char>| listed(users, e), |e: Seq<char>| followers_of(users, e))
}

/// `user` added to `engine`'s followers.
pub open spec fn add_set_follower(m: Map<Seq<char>, Set<Seq<char>>>, engine: Seq<char>, user: Seq<char>) -> Map<
    Seq<char>,
    Set<Seq<char>>,
> {
    m.insert(
        engine,
        if m.contains_key(engine) {
            m[engine].insert(user)
        } else {
            set![user]
        },
    )
}

/// Adds `user` to `engine`'s followers, unless it is there already.
fn add_set_follower_entry(entries: &mut Vec<(String, Vec<String>)>, engine: &String, user: &String)
    requires
        set_group_wf(old(entries)@),
    ensures
        set_group_wf(final(entries)@),
        set_group_view(final(entries)@) == add_set_follower(set_group_view(old(entries)@), engine@, user@),
{
    let ghost v = entries@;
    let ghost se = set_entries(v);
    proof {
        lemma_entries_map(se);
    }
    let j = find_key(entries, engine);
    if j < entries.len() {
        proof {
            lemma_set_group_at(v, j as int);
        }
        if contains_string(&entries[j].1, user) {
            proof {
                let m = set_group_view(v);
                assert(m[engine@].insert(user@) =~= m[engine@]);
                assert(m.insert(engine@, m[engine@]) =~= m);
            }
            return;
        }
        let (key, mut users) = entries.remove(j);
        let ghost old_users = string_views(users@);
        users.push(user.clone());
        assert(string_views(users@) =~= old_users.push(user@));
        entries.insert(j, (key, users));
        proof {
            let nse = set_entries(entries@);
            assert(nse =~= se.update(j as int, (se[j as int].0, old_users.push(user@))));
            crate::summary::lemma_entries_map_update(se, j as int, old_users.push(user@));
            assert(followers_distinct(nse)) by {
                assert forall|t: int| 0 <= t < nse.len() implies (#[trigger] nse[t]).1.no_duplicates() by {
                    if t != j {
                        assert(nse[t] == se[t]);
                    }
                }
            }
            old_users.lemma_push_to_set_commute(user@);
            assert(set_group_view(entries@) =~= add_set_follower(set_group_view(v), engine@, user@));
        }
    } else {
        let mut users: Vec<String> = Vec::new();
        users.push(user.clone());
        entries.push((engine.clone(), users));
        proof {
            let nse = set_entries(entries@);
            assert(string_views(users@) =~= seq![user@]);
            assert(nse =~= se.push((engine@, seq![user@])));
            assert(nse.drop_last() =~= se);
            if set_group_view(v).dom().contains(engine@) {
                lemma_set_group_key(v, engine@);
            }
            assert forall|a: int, b: int| 0 <= a < b < nse.len() implies (#[trigger] nse[a]).0 != (#[trigger] nse[b]).0 by {
                if b < se.len() {
                    assert(se[a].0 != se[b].0);
                } else {
                    assert(se[a].0 == v[a].0@);
                }
            }
            assert forall|t: int| 0 <= t < nse.len() implies (#[trigger] nse[t]).1.no_duplicates() by {
                if t < se.len() {
                    assert(nse[t] == se[t]);
                }
            }
            Seq::<Seq<char>>::empty().lemma_push_to_set_commute(user@);
            assert(seq![user@] =~= Seq::<Seq<char>>::empty().push(user@));
            assert(Seq::<Seq<char>>::empty().to_set() =~= Set::<Seq<char>>::empty());
            assert(set_group_view(entries@) =~= add_set_follower(set_group_view(v), engine@, user@));
        }
    }
}

/// The followers map after the first `i` users and the first `k` engines of user `i`.
spec fn partial_followers(
    users: Seq<(Seq<char>, Set<Seq<char>>)>,
    i: int,
    name: Seq<char>,
    done: Seq<Seq<char>>,
) -> Map<Seq<char>, Set<Seq<char>>> {
    let before = users.take(i);
    Map::new(
        |e: Seq<char>| listed(before, e) || done.contains(e),
        |e: Seq<char>|
            if done.contains(e) {
                followers_of(before, e).insert(name)
            } else {
                followers_of(before, e)
            },
    )
}

/// Each engine that some user follows, with the set of users who follow it.
fn group_followers(users: &Vec<(String, Vec<String>)>) -> (r: Vec<(String, Vec<String>)>)
    ensures
        set_group_wf(r@),
        set_group_view(r@) == engine_followers(users_view(users@)),
{
    let ghost uv = users_view(users@);
    let mut entries: Vec<(String, Vec<String>)> = Vec::new();
    assert(set_group_view(entries@) =~= engine_followers(uv.take(0)));
    let mut i: usize = 0;
    while i < users.len()
        invariant
            i <= users.len(),
            uv == users_view(users@),
            set_group_wf(entries@),
            set_group_view(entries@) == engine_followers(uv.take(i as int)),
        decreases users.len() - i,
    {
        let name = &users[i].0;
        let engines = &users[i].1;
        let ghost ev = string_views(engines@);
        let ghost before = uv.take(i as int);
        assert(set_group_view(entries@) =~= partial_followers(uv, i as int, name@, ev.take(0)));
        let mut k: usize = 0;
        while k < engines.len()
            invariant
                k <= engines.len(),
                ev == string_views(engines@),
                before == uv.take(i as int),
                set_group_wf(entries@),
                set_group_view(entries@) == partial_followers(uv, i as int, name@, ev.take(k as int)),
            decreases engines.len() - k,
        {
            let ghost m0 = set_group_view(entries@);
            add_set_follower_entry(&mut entries, &engines[k], name);
            proof {
                let e = engines@[k as int]@;
                let d0 = ev.take(k as int);
                let d1 = ev.take(k + 1);
                assert(d1 =~= d0.push(e));
                assert forall|x: Seq<char>| #[trigger] d1.contains(x) <==> (d0.contains(x) || x == e) by {
                    if d1.contains(x) {
                        let t = choose|t: int| 0 <= t < d1.len() && d1[t] == x;
                        if t < d0.len() {
                            assert(d0[t] == x);
                        }
                    }
                    if d0.contains(x) {
                        let t = choose|t: int| 0 <= t < d0.len() && d0[t] == x;
                        assert(d1[t] == x);
                    }
                    if x == e {
                        assert(d1[k as int] == x);
                    }
                }
                let goal = partial_followers(uv, i as int, name@, d1);
                let got = set_group_view(entries@);
                assert forall|x: Seq<char>| #[trigger] got.dom().contains(x) <==> goal.dom().contains(x) by {}
                assert forall|x: Seq<char>| #[trigger] got.dom().contains(x) implies got[x] =~= goal[x] by {
                    if x == e && !m0.dom().contains(e) {
                        assert(!listed(before, e));
                        assert(followers_of(before, e) =~= Set::<Seq<char>>::empty());
                    }
                }
                assert(got =~= goal);
            }
            k = k + 1;
        }
        proof {
            let d = ev.take(k as int);
            assert(d =~= ev);
            let after = uv.take(i + 1);
            assert(after =~= before.push(uv[i as int]));
            assert(uv[i as int] == (name@, ev.to_set()));
            let goal = engine_followers(after);
            let got = set_group_view(entries@);
            assert forall|x: Seq<char>| #[trigger] got.dom().contains(x) <==> goal.dom().contains(x) by {
                if listed(after, x) {
                    let t = choose|t: int| 0 <= t < after.len() && (#[trigger] after[t]).1.contains(x);
                    if t < before.len() {
                        assert(before[t] == after[t]);
                    } else {
                        assert(ev.to_set().contains(x));
                    }
                }
                if listed(before, x) {
                    let t = choose|t: int| 0 <= t < before.len() && (#[trigger] before[t]).1.contains(x);
                    assert(after[t] == before[t]);
                }
                if d.contains(x) {
                    assert(after[i as int].1.contains(x));
                }
            }
            assert forall|x: Seq<char>| #[trigger] got.dom().contains(x) implies got[x] =~= goal[x] by {
                assert forall|u: Seq<char>| #[trigger] got[x].contains(u) <==> goal[x].contains(u) by {
                    if goal[x].contains(u) {
                        let t = choose|t: int| 0 <= t < after.len() && (#[trigger] after[t]).0 == u && after[t].1.contains(x);
                        if t < before.len() {
                            assert(before[t] == after[t]);
                        } else {
                            assert(ev.to_set().contains(x));
                        }
                    }
                    if followers_of(before, x).contains(u) {
                        let t = choose|t: int| 0 <= t < before.len() && (#[trigger] before[t]).0 == u && before[t].1.contains(x);
                        assert(after[t] == before[t]);
                    }
                    if d.contains(x) && u == name@ {
                        assert(after[i as int].0 == u && after[i as int].1.contains(x));
                    }
                }
            }
            assert(got =~= goal);
        }
        i = i + 1;
    }
    assert(uv.take(users.len() as int) =~= uv);
    entries
}

/// For TCEC and for AlphaBeta, each engine that some user follows, with the set of
/// users who follow it.
pub fn get_notify_config(config_file: &ConfigFile) -> (r: NotifyConfig)
    ensures
        r@.0 == engine_followers(config_file@.0),
        r@.1 == engine_followers(config_file@.1),
{
    let tcec_engines = group_followers(&config_file.tcec_users);
    let alphabeta_engines = group_followers(&config_file.alphabeta_users);
    NotifyConfig { tcec_engines, alphabeta_engines }
}

} // verus!
