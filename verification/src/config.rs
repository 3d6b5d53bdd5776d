//! The set of reverse proxies, keyed by listen domain and kept in domain order, together
//! with the directory that their nginx configurations are written to.
use vstd::prelude::*;

use crate::error::NrpError;
use crate::proxy::{
    new_proxy_spec, optional_key, parse_setting_spec, Proxy, ProxySetting, ProxySettingKey,
    ProxySettingKeyOptional, ProxyView,
};
use crate::text::{
    is_absolute_path, is_relative_path, join_path, join_path_spec, str_equal, str_less, str_lt,
    lemma_str_lt_irreflexive, lemma_str_lt_transitive, lemma_str_lt_trichotomy,
};

verus! {

/// The mathematical value of a [`Config`]: the directory, and the proxies with their listen
/// domains in the order in which the configuration holds them.
pub struct ConfigView {
    pub sites_enabled_dir: Seq<char>,
    pub entries: Seq<(Seq<char>, ProxyView)>,
}

impl ConfigView {
    /// The listen domains are strictly increasing, so that none occurs twice.
    pub open spec fn keys_sorted(self) -> bool {
        forall|i: int, j: int|
            0 <= i < j < self.entries.len() ==> str_lt(
                #[trigger] self.entries[i].0,
                #[trigger] self.entries[j].0,
            )
    }

    /// A proxy is configured for the listen domain.
    pub open spec fn has(self, d: Seq<char>) -> bool {
        exists|i: int| 0 <= i < self.entries.len() && #[trigger] self.entries[i].0 == d
    }

    /// The position of the listen domain's entry.
    pub open spec fn index_of(self, d: Seq<char>) -> int {
        choose|i: int| 0 <= i < self.entries.len() && #[trigger] self.entries[i].0 == d
    }

    /// The proxies as a map from listen domain to proxy.
    pub open spec fn proxies(self) -> Map<Seq<char>, ProxyView> {
        Map::new(|d: Seq<char>| self.has(d), |d: Seq<char>| self.entries[self.index_of(d)].1)
    }
}

/// The configuration of all reverse proxies.
pub struct Config {
    sites_enabled_dir: String,
    proxies: Vec<(String, Proxy)>,
}

/// The mathematical value of one stored entry.
pub open spec fn entry_view(e: (String, Proxy)) -> (Seq<char>, ProxyView) {
    (e.0@, e.1@)
}

impl View for Config {
    type V = ConfigView;

    closed spec fn view(&self) -> ConfigView {
        ConfigView {
            sites_enabled_dir: self.sites_enabled_dir@,
            entries: self.proxies@.map_values(|e: (String, Proxy)| entry_view(e)),
        }
    }
}

/// Where a relative sites-enabled directory is taken to be, given the working directory.
pub open spec fn resolve_dir_spec(dir: Seq<char>, current_dir: Seq<char>) -> Seq<char> {
    if is_absolute_path(dir) {
        dir
    } else {
        join_path_spec(current_dir, dir)
    }
}

// ---------------------------------------------------------------------------
// Facts about sorted entries
// ---------------------------------------------------------------------------

proof fn lemma_keys_distinct(v: ConfigView, i: int, j: int)
    requires
        v.keys_sorted(),
        0 <= i < v.entries.len(),
        0 <= j < v.entries.len(),
        i != j,
    ensures
        v.entries[i].0 != v.entries[j].0,
{
    if i < j {
        lemma_str_lt_trichotomy(v.entries[i].0, v.entries[j].0);
    } else {
        lemma_str_lt_trichotomy(v.entries[j].0, v.entries[i].0);
    }
}

/// A domain is in the map exactly when some entry has it.
proof fn lemma_dom_is_has(v: ConfigView, d: Seq<char>)
    ensures
        v.proxies().dom().contains(d) == v.has(d),
{
}

/// The entry at a position is what the map gives for its domain.
proof fn lemma_lookup(v: ConfigView, i: int)
    requires
        v.keys_sorted(),
        0 <= i < v.entries.len(),
    ensures
        v.has(v.entries[i].0),
        v.index_of(v.entries[i].0) == i,
        v.proxies().dom().contains(v.entries[i].0),
        v.proxies()[v.entries[i].0] == v.entries[i].1,
{
    let d = v.entries[i].0;
    assert(v.has(d));
    let j = v.index_of(d);
    if j != i {
        lemma_keys_distinct(v, i, j);
    }
}

/// Replacing the proxy at a position keeps the order and updates the map.
proof fn lemma_update(v: ConfigView, w: ConfigView, i: int, p: ProxyView)
    requires
        v.keys_sorted(),
        0 <= i < v.entries.len(),
        w.entries == v.entries.update(i, (v.entries[i].0, p)),
    ensures
        w.keys_sorted(),
        w.proxies() == v.proxies().insert(v.entries[i].0, p),
{
    let k = v.entries[i].0;
    assert forall|a: int, b: int| 0 <= a < b < w.entries.len() implies str_lt(
        #[trigger] w.entries[a].0,
        #[trigger] w.entries[b].0,
    ) by {
        assert(w.entries[a].0 == v.entries[a].0);
        assert(w.entries[b].0 == v.entries[b].0);
    }
    assert forall|d: Seq<char>| w.has(d) <==> v.has(d) by {
        if w.has(d) {
            let j = w.index_of(d);
            assert(v.entries[j].0 == d);
        }
        if v.has(d) {
            let j = v.index_of(d);
            assert(w.entries[j].0 == d);
        }
    }
    assert forall|d: Seq<char>| #[trigger] w.proxies().dom().contains(d) implies w.proxies()[d]
        == v.proxies().insert(k, p)[d] by {
        assert(w.has(d));
        let j = w.index_of(d);
        lemma_lookup(w, j);
        if j != i {
            lemma_lookup(v, j);
            lemma_keys_distinct(v, i, j);
            assert(w.entries[j] == v.entries[j]);
        } else {
            assert(w.entries[i] == (k, p));
        }
    }
    assert(w.proxies() =~= v.proxies().insert(k, p));
}

/// Inserting a new domain at the position where it belongs keeps the order and adds it to
/// the map.
proof fn lemma_insert(v: ConfigView, w: ConfigView, i: int, k: Seq<char>, p: ProxyView)
    requires
        v.keys_sorted(),
        0 <= i <= v.entries.len(),
        forall|j: int| 0 <= j < i ==> str_lt(#[trigger] v.entries[j].0, k),
        forall|j: int| i <= j < v.entries.len() ==> str_lt(k, #[trigger] v.entries[j].0),
        w.entries == v.entries.insert(i, (k, p)),
    ensures
        !v.has(k),
        w.keys_sorted(),
        w.proxies() == v.proxies().insert(k, p),
{
    if v.has(k) {
        let j = v.index_of(k);
        lemma_str_lt_irreflexive(k);
        if j < i {
            assert(str_lt(v.entries[j].0, k));
        } else {
            assert(str_lt(k, v.entries[j].0));
        }
    }
    assert forall|a: int, b: int| 0 <= a < b < w.entries.len() implies str_lt(
        #[trigger] w.entries[a].0,
        #[trigger] w.entries[b].0,
    ) by {
        if b < i {
            assert(w.entries[a] == v.entries[a]);
            assert(w.entries[b] == v.entries[b]);
        } else if b == i {
            assert(w.entries[a] == v.entries[a]);
        } else if a < i {
            assert(w.entries[a] == v.entries[a]);
            assert(w.entries[b] == v.entries[b - 1]);
            lemma_str_lt_transitive(v.entries[a].0, k, v.entries[b - 1].0);
        } else if a == i {
            assert(w.entries[b] == v.entries[b - 1]);
        } else {
            assert(w.entries[a] == v.entries[a - 1]);
            assert(w.entries[b] == v.entries[b - 1]);
        }
    }
    assert forall|d: Seq<char>| w.has(d) <==> (v.has(d) || d == k) by {
        if w.has(d) {
            let j = w.index_of(d);
            if j < i {
                assert(v.entries[j].0 == d);
            } else if j > i {
                assert(v.entries[j - 1].0 == d);
            }
        }
        if v.has(d) {
            let j = v.index_of(d);
            if j < i {
                assert(w.entries[j].0 == d);
            } else {
                assert(w.entries[j + 1].0 == d);
            }
        }
        if d == k {
            assert(w.entries[i].0 == d);
        }
    }
    assert forall|d: Seq<char>| #[trigger] w.proxies().dom().contains(d) implies w.proxies()[d]
        == v.proxies().insert(k, p)[d] by {
        let j = w.index_of(d);
        lemma_lookup(w, j);
        if j < i {
            lemma_lookup(v, j);
        } else if j > i {
            lemma_lookup(v, j - 1);
        }
    }
    assert(w.proxies() =~= v.proxies().insert(k, p));
}

/// Removing the entry at a position keeps the order and removes its domain from the map.
proof fn lemma_remove(v: ConfigView, w: ConfigView, i: int)
    requires
        v.keys_sorted(),
        0 <= i < v.entries.len(),
        w.entries == v.entries.remove(i),
    ensures
        w.keys_sorted(),
        w.proxies() == v.proxies().remove(v.entries[i].0),
{
    let k = v.entries[i].0;
    assert forall|a: int, b: int| 0 <= a < b < w.entries.len() implies str_lt(
        #[trigger] w.entries[a].0,
        #[trigger] w.entries[b].0,
    ) by {
        if b < i {
            assert(w.entries[b] == v.entries[b]);
            assert(w.entries[a] == v.entries[a]);
        } else if a < i {
            assert(w.entries[a] == v.entries[a]);
            assert(w.entries[b] == v.entries[b + 1]);
        } else {
            assert(w.entries[a] == v.entries[a + 1]);
            assert(w.entries[b] == v.entries[b + 1]);
        }
    }
    assert forall|d: Seq<char>| w.has(d) <==> (v.has(d) && d != k) by {
        if w.has(d) {
            let j = w.index_of(d);
            if j < i {
                assert(v.entries[j].0 == d);
                lemma_keys_distinct(v, i, j);
            } else {
                assert(v.entries[j + 1].0 == d);
                lemma_keys_distinct(v, i, j + 1);
            }
        }
        if v.has(d) && d != k {
            let j = v.index_of(d);
            if j < i {
                assert(w.entries[j].0 == d);
            } else {
                assert(w.entries[j - 1].0 == d);
            }
        }
    }
    assert forall|d: Seq<char>| #[trigger] w.proxies().dom().contains(d) implies w.proxies()[d]
        == v.proxies().remove(k)[d] by {
        let j = w.index_of(d);
        lemma_lookup(w, j);
        if j < i {
            lemma_lookup(v, j);
        } else {
            lemma_lookup(v, j + 1);
        }
    }
    assert(w.proxies() =~= v.proxies().remove(k));
}

// ---------------------------------------------------------------------------
// Operations
// ---------------------------------------------------------------------------

impl Config {
    /// The configuration keeps its domains strictly increasing.
    pub open spec fn wf(&self) -> bool {
        self@.keys_sorted()
    }

    /// Create a new configuration with no proxies. A relative sites-enabled directory is taken
    /// relative to `current_dir`, the working directory, which is not read otherwise.
    pub fn new(sites_enabled_dir: String, current_dir: &str) -> (r: Config)
        ensures
            r.wf(),
            r@.sites_enabled_dir == resolve_dir_spec(sites_enabled_dir@, current_dir@),
            r@.entries.len() == 0,
            r@.proxies() == Map::<Seq<char>, ProxyView>::empty(),
    {
        let dir = if is_relative_path(sites_enabled_dir.as_str()) {
            join_path(current_dir, sites_enabled_dir.as_str())
        } else {
            sites_enabled_dir
        };
        let c = Config { sites_enabled_dir: dir, proxies: Vec::new() };
        assert(c@.entries =~= Seq::<(Seq<char>, ProxyView)>::empty());
        assert(c@.proxies() =~= Map::<Seq<char>, ProxyView>::empty());
        c
    }

    /// A configuration with no proxies whose sites-enabled directory is taken as given.
    pub fn with_sites_enabled_dir(sites_enabled_dir: String) -> (r: Config)
        ensures
            r.wf(),
            r@.sites_enabled_dir == sites_enabled_dir@,
            r@.entries.len() == 0,
            r@.proxies() == Map::<Seq<char>, ProxyView>::empty(),
    {
        let c = Config { sites_enabled_dir, proxies: Vec::new() };
        assert(c@.entries =~= Seq::<(Seq<char>, ProxyView)>::empty());
        assert(c@.proxies() =~= Map::<Seq<char>, ProxyView>::empty());
        c
    }

    /// The directory in which nginx site configurations are written.
    pub fn sites_enabled_dir(&self) -> (r: &String)
        ensures
            r@ == self@.sites_enabled_dir,
    {
        &self.sites_enabled_dir
    }

    /// The proxies with their listen domains, in domain order.
    pub fn entries(&self) -> (r: &Vec<(String, Proxy)>)
        ensures
            r@.len() == self@.entries.len(),
            forall|i: int| 0 <= i < r@.len() ==> entry_view(#[trigger] r@[i]) == self@.entries[i],
    {
        &self.proxies
    }

    /// Return the path for the nginx config file associated with the given domain.
    pub fn site_config_path(&self, listen_domain: &str) -> (r: String)
        ensures
            r@ == join_path_spec(self@.sites_enabled_dir, listen_domain@),
    {
        join_path(self.sites_enabled_dir.as_str(), listen_domain)
    }

    fn find(&self, listen_domain: &str) -> (r: Option<usize>)
        requires
            self.wf(),
        ensures
            match r {
                Some(i) => i < self@.entries.len() && self@.entries[i as int].0 == listen_domain@,
                None => !self@.has(listen_domain@) && !self@.proxies().dom().contains(
                    listen_domain@,
                ),
            },
    {
        proof {
            lemma_dom_is_has(self@, listen_domain@);
        }
        let n = self.proxies.len();
        let mut i: usize = 0;
        while i < n
            invariant
                n == self.proxies@.len(),
                i <= n,
                forall|j: int| 0 <= j < i ==> (#[trigger] self@.entries[j]).0 != listen_domain@,
            decreases n - i,
        {
            assert(self@.entries[i as int] == entry_view(self.proxies@[i as int]));
            if str_equal(self.proxies[i].0.as_str(), listen_domain) {
                return Some(i);
            }
            i = i + 1;
        }
        None
    }

    fn position(&self, listen_domain: &str) -> (r: (usize, bool))
        requires
            self.wf(),
        ensures
            r.0 <= self@.entries.len(),
            forall|j: int| 0 <= j < r.0 ==> str_lt(#[trigger] self@.entries[j].0, listen_domain@),
            r.1 ==> r.0 < self@.entries.len() && self@.entries[r.0 as int].0 == listen_domain@,
            !r.1 ==> forall|j: int|
                r.0 <= j < self@.entries.len() ==> str_lt(
                    listen_domain@,
                    #[trigger] self@.entries[j].0,
                ),
    {
        let n = self.proxies.len();
        let mut i: usize = 0;
        while i < n && str_less(self.proxies[i].0.as_str(), listen_domain)
            invariant
                n == self.proxies@.len(),
                i <= n,
                forall|j: int| 0 <= j < i ==> str_lt(#[trigger] self@.entries[j].0, listen_domain@),
            decreases n - i,
        {
            assert(self@.entries[i as int] == entry_view(self.proxies@[i as int]));
            i = i + 1;
        }
        if i == n {
            return (i, false);
        }
        assert(self@.entries[i as int] == entry_view(self.proxies@[i as int]));
        if str_equal(self.proxies[i].0.as_str(), listen_domain) {
            return (i, true);
        }
        proof {
            let k = self@.entries[i as int].0;
            lemma_str_lt_trichotomy(k, listen_domain@);
            assert forall|j: int| i <= j < self@.entries.len() implies str_lt(
                listen_domain@,
                #[trigger] self@.entries[j].0,
            ) by {
                if j > i {
                    lemma_str_lt_transitive(listen_domain@, k, self@.entries[j].0);
                }
            }
        }
        (i, false)
    }

    /// Store the proxy under the listen domain, replacing any proxy stored there; returns
    /// whether one was.
    pub fn insert(&mut self, listen_domain: String, proxy: Proxy) -> (r: bool)
        requires
            old(self).wf(),
        ensures
            final(self).wf(),
            r == old(self)@.proxies().dom().contains(listen_domain@),
            final(self)@.proxies() == old(self)@.proxies().insert(listen_domain@, proxy@),
            final(self)@.sites_enabled_dir == old(self)@.sites_enabled_dir,
    {
        let (i, found) = self.position(listen_domain.as_str());
        let ghost v = self@;
        proof {
            lemma_dom_is_has(v, listen_domain@);
        }
        let ghost k = listen_domain@;
        let ghost p = proxy@;
        if found {
            proof {
                lemma_lookup(v, i as int);
            }
            self.proxies.set(i, (listen_domain, proxy));
            proof {
                assert(self@.entries =~= v.entries.update(i as int, (v.entries[i as int].0, p)));
                lemma_update(v, self@, i as int, p);
            }
            true
        } else {
            self.proxies.insert(i, (listen_domain, proxy));
            proof {
                assert(self@.entries =~= v.entries.insert(i as int, (k, p)));
                lemma_insert(v, self@, i as int, k, p);
            }
            false
        }
    }

    /// Render the nginx configuration for the given domain.
    pub fn render(&self, listen_domain: &str) -> (r: Result<String, NrpError>)
        requires
            self.wf(),
        ensures
            self@.proxies().dom().contains(listen_domain@) ==> (r matches Ok(s) && s@ == self@.proxies()[
                listen_domain@
            ].render_spec(listen_domain@)),
            !self@.proxies().dom().contains(listen_domain@) ==> (r matches Err(NrpError::ProxyNotFound(m)) && m@
                == listen_domain@),
    {
        match self.find(listen_domain) {
            Some(i) => {
                proof {
                    lemma_lookup(self@, i as int);
                }
                assert(self@.entries[i as int] == entry_view(self.proxies@[i as int]));
                Ok(self.proxies[i].1.render(listen_domain))
            },
            None => Err(NrpError::ProxyNotFound(String::from_str(listen_domain))),
        }
    }

    /// Render the nginx configurations for all proxies, in domain order.
    pub fn render_all(&self) -> (r: Vec<String>)
        requires
            self.wf(),
        ensures
            r@.len() == self@.entries.len(),
            r@.len() == self@.proxies().len(),
            forall|i: int|
                0 <= i < r@.len() ==> (#[trigger] r@[i])@ == self@.entries[i].1.render_spec(
                    self@.entries[i].0,
                ),
    {
        proof {
            law_entries_are_the_map(self@);
        }
        let n = self.proxies.len();
        let mut out: Vec<String> = Vec::new();
        let mut i: usize = 0;
        while i < n
            invariant
                n == self.proxies@.len(),
                i <= n,
                out@.len() == i,
                forall|j: int|
                    0 <= j < i ==> (#[trigger] out@[j])@ == self@.entries[j].1.render_spec(
                        self@.entries[j].0,
                    ),
            decreases n - i,
        {
            assert(self@.entries[i as int] == entry_view(self.proxies@[i as int]));
            let s = self.proxies[i].1.render(self.proxies[i].0.as_str());
            out.push(s);
            i = i + 1;
        }
        out
    }

    /// Add a new proxy with the given contents. If a proxy already existed with the same
    /// listen domain, replace it, and return true.
    pub fn add(
        &mut self,
        listen_domain: String,
        listen_port: u16,
        dest_domain: String,
        dest_port: u16,
        client_max_body_size: Option<String>,
        gzip: Option<bool>,
    ) -> (r: bool)
        requires
            old(self).wf(),
        ensures
            final(self).wf(),
            r == old(self)@.proxies().dom().contains(listen_domain@),
            final(self)@.proxies() == old(self)@.proxies().insert(
                listen_domain@,
                ProxyView {
                    client_max_body_size: crate::proxy::opt_view(client_max_body_size),
                    ..new_proxy_spec(listen_port, dest_domain@, dest_port, gzip)
                },
            ),
            final(self)@.sites_enabled_dir == old(self)@.sites_enabled_dir,
    {
        let mut proxy = Proxy::new(listen_port, dest_domain, dest_port, gzip);
        proxy.client_max_body_size = client_max_body_size;
        self.insert(listen_domain, proxy)
    }

    /// Remove the proxy for the given domain, if it exists, and return true if so.
    pub fn remove(&mut self, listen_domain: &str) -> (r: bool)
        requires
            old(self).wf(),
        ensures
            final(self).wf(),
            r == old(self)@.proxies().dom().contains(listen_domain@),
            final(self)@.proxies() == old(self)@.proxies().remove(listen_domain@),
            final(self)@.sites_enabled_dir == old(self)@.sites_enabled_dir,
    {
        match self.find(listen_domain) {
            Some(i) => {
                let ghost v = self@;
                self.proxies.remove(i);
                proof {
                    assert(self@.entries =~= v.entries.remove(i as int));
                    lemma_remove(v, self@, i as int);
                }
                true
            },
            None => {
                proof {
                    assert(self@.proxies() =~= self@.proxies().remove(listen_domain@));
                }
                false
            },
        }
    }

    /// Disable the proxy for the given domain and return whether it was already disabled.
    /// A domain without a proxy is refused and nothing changes.
    pub fn disable(&mut self, listen_domain: &str) -> (r: Result<bool, NrpError>)
        requires
            old(self).wf(),
        ensures
            final(self).wf(),
            final(self)@.sites_enabled_dir == old(self)@.sites_enabled_dir,
            old(self)@.proxies().dom().contains(listen_domain@) ==> (r == Ok::<bool, NrpError>(
                old(self)@.proxies()[listen_domain@].is_disabled(),
            ) && final(self)@.proxies() == old(self)@.proxies().insert(
                listen_domain@,
                ProxyView { disabled: Some(true), ..old(self)@.proxies()[listen_domain@] },
            )),
            !old(self)@.proxies().dom().contains(listen_domain@) ==> (r matches Err(NrpError::ProxyNotFound(m)) && m@
                == listen_domain@ && final(self)@ == old(self)@),
    {
        match self.find(listen_domain) {
            Some(i) => {
                let ghost v = self@;
                proof {
                    lemma_lookup(v, i as int);
                }
                let (k, mut p) = self.proxies.remove(i);
                assert(entry_view((k, p)) == v.entries[i as int]);
                let prev = p.disable();
                let ghost np = p@;
                self.proxies.insert(i, (k, p));
                proof {
                    assert(self@.entries =~= v.entries.update(i as int, (v.entries[i as int].0, np)));
                    lemma_update(v, self@, i as int, np);
                }
                Ok(prev)
            },
            None => Err(NrpError::ProxyNotFound(String::from_str(listen_domain))),
        }
    }

    /// Enable the proxy for the given domain and return whether it was disabled.
    /// A domain without a proxy is refused and nothing changes.
    pub fn enable(&mut self, listen_domain: &str) -> (r: Result<bool, NrpError>)
        requires
            old(self).wf(),
        ensures
            final(self).wf(),
            final(self)@.sites_enabled_dir == old(self)@.sites_enabled_dir,
            old(self)@.proxies().dom().contains(listen_domain@) ==> (r == Ok::<bool, NrpError>(
                old(self)@.proxies()[listen_domain@].is_disabled(),
            ) && final(self)@.proxies() == old(self)@.proxies().insert(
                listen_domain@,
                ProxyView { disabled: None, ..old(self)@.proxies()[listen_domain@] },
            )),
            !old(self)@.proxies().dom().contains(listen_domain@) ==> (r matches Err(NrpError::ProxyNotFound(m)) && m@
                == listen_domain@ && final(self)@ == old(self)@),
    {
        match self.find(listen_domain) {
            Some(i) => {
                let ghost v = self@;
                proof {
                    lemma_lookup(v, i as int);
                }
                let (k, mut p) = self.proxies.remove(i);
                assert(entry_view((k, p)) == v.entries[i as int]);
                let prev = p.enable();
                let ghost np = p@;
                self.proxies.insert(i, (k, p));
                proof {
                    assert(self@.entries =~= v.entries.update(i as int, (v.entries[i as int].0, np)));
                    lemma_update(v, self@, i as int, np);
                }
                Ok(prev)
            },
            None => Err(NrpError::ProxyNotFound(String::from_str(listen_domain))),
        }
    }

    /// Get the value of the given proxy setting for the given domain.
    pub fn get_key(&self, listen_domain: &str, key: ProxySettingKey) -> (r: Result<
        ProxySetting,
        NrpError,
    >)
        requires
            self.wf(),
        ensures
            self@.proxies().dom().contains(listen_domain@) ==> (r matches Ok(s) && s@ == self@.proxies()[
                listen_domain@
            ].get_key_spec(key)),
            !self@.proxies().dom().contains(listen_domain@) ==> (r matches Err(NrpError::ProxyNotFound(m)) && m@
                == listen_domain@),
    {
        match self.find(listen_domain) {
            Some(i) => {
                proof {
                    lemma_lookup(self@, i as int);
                }
                assert(self@.entries[i as int] == entry_view(self.proxies@[i as int]));
                Ok(self.proxies[i].1.get_key(key))
            },
            None => Err(NrpError::ProxyNotFound(String::from_str(listen_domain))),
        }
    }

    /// Set the given proxy setting for the given domain to the given value, and return the
    /// new setting. A domain without a proxy, or a value that does not parse for the key, is
    /// refused and nothing changes.
    pub fn set_key(&mut self, listen_domain: &str, key: ProxySettingKey, value: String) -> (r:
        Result<ProxySetting, NrpError>)
        requires
            old(self).wf(),
        ensures
            final(self).wf(),
            final(self)@.sites_enabled_dir == old(self)@.sites_enabled_dir,
            !old(self)@.proxies().dom().contains(listen_domain@) ==> (r matches Err(NrpError::ProxyNotFound(m)) && m@
                == listen_domain@ && final(self)@ == old(self)@),
            old(self)@.proxies().dom().contains(listen_domain@) ==> match parse_setting_spec(key, value@) {
                Ok(s) => r matches Ok(t) && t@ == s && final(self)@.proxies() == old(
                    self,
                )@.proxies().insert(
                    listen_domain@,
                    old(self)@.proxies()[listen_domain@].with_setting(s),
                ),
                Err(e) => r matches Err(x) && x@ == e && final(self)@ == old(self)@,
            },
    {
        match self.find(listen_domain) {
            Some(i) => {
                let ghost v = self@;
                proof {
                    lemma_lookup(v, i as int);
                }
                let (k, mut p) = self.proxies.remove(i);
                assert(entry_view((k, p)) == v.entries[i as int]);
                let r = p.set_key(key, value);
                let ghost np = p@;
                self.proxies.insert(i, (k, p));
                proof {
                    assert(self@.entries =~= v.entries.update(i as int, (v.entries[i as int].0, np)));
                    lemma_update(v, self@, i as int, np);
                    if r is Err {
                        assert(self@.entries =~= v.entries);
                    }
                }
                r
            },
            None => Err(NrpError::ProxyNotFound(String::from_str(listen_domain))),
        }
    }

    /// Unset the given optional setting for the given domain and return its previous value.
    /// A domain without a proxy is refused and nothing changes.
    pub fn unset_key(&mut self, listen_domain: &str, key: ProxySettingKeyOptional) -> (r: Result<
        ProxySetting,
        NrpError,
    >)
        requires
            old(self).wf(),
        ensures
            final(self).wf(),
            final(self)@.sites_enabled_dir == old(self)@.sites_enabled_dir,
            old(self)@.proxies().dom().contains(listen_domain@) ==> (r matches Ok(s) && s@ == old(self)@.proxies()[
                listen_domain@
            ].get_key_spec(optional_key(key)) && final(self)@.proxies() == old(
                self,
            )@.proxies().insert(listen_domain@, old(self)@.proxies()[listen_domain@].without(key))),
            !old(self)@.proxies().dom().contains(listen_domain@) ==> (r matches Err(NrpError::ProxyNotFound(m)) && m@
                == listen_domain@ && final(self)@ == old(self)@),
    {
        match self.find(listen_domain) {
            Some(i) => {
                let ghost v = self@;
                proof {
                    lemma_lookup(v, i as int);
                }
                let (k, mut p) = self.proxies.remove(i);
                assert(entry_view((k, p)) == v.entries[i as int]);
                let prev = p.unset_key(key);
                let ghost np = p@;
                self.proxies.insert(i, (k, p));
                proof {
                    assert(self@.entries =~= v.entries.update(i as int, (v.entries[i as int].0, np)));
                    lemma_update(v, self@, i as int, np);
                }
                Ok(prev)
            },
            None => Err(NrpError::ProxyNotFound(String::from_str(listen_domain))),
        }
    }
}

/// The proxies held in order are exactly those of the map, each domain once: the map is
/// finite, has as many domains as there are entries, and gives each entry's proxy for its
/// domain.
pub proof fn law_entries_are_the_map(c: ConfigView)
    requires
        c.keys_sorted(),
    ensures
        c.proxies().dom().finite(),
        c.proxies().len() == c.entries.len(),
        forall|d: Seq<char>| #[trigger] c.proxies().dom().contains(d) <==> c.has(d),
        forall|i: int|
            0 <= i < c.entries.len() ==> c.proxies().dom().contains(#[trigger] c.entries[i].0)
                && c.proxies()[c.entries[i].0] == c.entries[i].1,
        forall|i: int, j: int|
            0 <= i < c.entries.len() && 0 <= j < c.entries.len() && i != j ==> #[trigger] c.entries[i].0
                != #[trigger] c.entries[j].0,
{
    assert forall|i: int| 0 <= i < c.entries.len() implies c.proxies().dom().contains(
        #[trigger] c.entries[i].0,
    ) && c.proxies()[c.entries[i].0] == c.entries[i].1 by {
        lemma_lookup(c, i);
    }
    assert forall|i: int, j: int|
        0 <= i < c.entries.len() && 0 <= j < c.entries.len() && i != j implies #[trigger] c.entries[i].0
        != #[trigger] c.entries[j].0 by {
        lemma_keys_distinct(c, i, j);
    }
    let keys = c.entries.map_values(|e: (Seq<char>, ProxyView)| e.0);
    assert forall|i: int, j: int| 0 <= i < keys.len() && 0 <= j < keys.len() && i != j implies keys[i]
        != keys[j] by {
        lemma_keys_distinct(c, i, j);
    }
    assert(keys.no_duplicates());
    keys.unique_seq_to_set();
    assert forall|d: Seq<char>| keys.to_set().contains(d) <==> c.proxies().dom().contains(d) by {
        if keys.to_set().contains(d) {
            assert(keys.contains(d));
            let i = choose|i: int| 0 <= i < keys.len() && keys[i] == d;
            assert(c.entries[i].0 == d);
        }
        if c.proxies().dom().contains(d) {
            let i = c.index_of(d);
            assert(keys[i] == d);
            assert(keys.contains(d));
        }
    }
    assert(keys.to_set() =~= c.proxies().dom());
    vstd::seq_lib::seq_to_set_is_finite(keys);
}

/// Adding a proxy for a domain that had none and then removing it gives back the proxies
/// there were.
pub proof fn law_remove_undoes_add(c: ConfigView, d: Seq<char>, p: ProxyView)
    requires
        !c.proxies().dom().contains(d),
    ensures
        c.proxies().insert(d, p).remove(d) == c.proxies(),
{
    assert(c.proxies().insert(d, p).remove(d) =~= c.proxies());
}

/// Removing a domain twice is the same as removing it once.
pub proof fn law_remove_idempotent(c: ConfigView, d: Seq<char>)
    ensures
        c.proxies().remove(d).remove(d) == c.proxies().remove(d),
{
    assert(c.proxies().remove(d).remove(d) =~= c.proxies().remove(d));
}

/// After a proxy is added under a domain, that domain has exactly that proxy, and every other
/// domain keeps its proxy.
pub proof fn law_read_after_add(c: ConfigView, d: Seq<char>, p: ProxyView, other: Seq<char>)
    ensures
        c.proxies().insert(d, p).dom().contains(d),
        c.proxies().insert(d, p)[d] == p,
        other != d ==> (c.proxies().insert(d, p).dom().contains(other) == c.proxies().dom().contains(
            other,
        ) && (c.proxies().dom().contains(other) ==> c.proxies().insert(d, p)[other]
            == c.proxies()[other])),
{
}

/// An absolute sites-enabled directory is kept as given; any other is joined onto the working
/// directory: the result is the working directory, possibly a `/`, then the directory, so it
/// is absolute whenever the working directory is.
pub proof fn law_relative_dir_is_joined(dir: Seq<char>, current_dir: Seq<char>)
    ensures
        is_absolute_path(dir) ==> resolve_dir_spec(dir, current_dir) == dir,
        !is_absolute_path(dir) ==> (resolve_dir_spec(dir, current_dir) == current_dir + dir
            || resolve_dir_spec(dir, current_dir) == current_dir + seq!['/'] + dir),
        !is_absolute_path(dir) && is_absolute_path(current_dir) ==> is_absolute_path(
            resolve_dir_spec(dir, current_dir),
        ),
{
    if !is_absolute_path(dir) && is_absolute_path(current_dir) {
        let r = resolve_dir_spec(dir, current_dir);
        assert(r[0] == current_dir[0]);
    }
}

/// The site file of a domain that does not start with `/` lies in the sites-enabled
/// directory: its path is the directory, possibly a `/`, then the domain.
pub proof fn law_site_path_in_dir(dir: Seq<char>, domain: Seq<char>)
    requires
        !is_absolute_path(domain),
    ensures
        join_path_spec(dir, domain) == dir + domain || join_path_spec(dir, domain) == dir + seq![
            '/',
        ] + domain,
        dir.len() > 0 && dir.last() != '/' ==> join_path_spec(dir, domain) == dir + seq!['/']
            + domain,
{
}

} // verus!
