//! Data model: instances, their state, and the WSL version report.
use vstd::prelude::*;

verus! {

/// Whether an instance is running.
#[derive(Clone, Copy, Debug, PartialEq, Eq, Structural)]
pub enum InstanceState {
    Running,
    Stopped,
    Unknown,
}

pub open spec fn running_word() -> Seq<char> {
    seq!['R', 'u', 'n', 'n', 'i', 'n', 'g']
}

pub open spec fn stopped_word() -> Seq<char> {
    seq!['S', 't', 'o', 'p', 'p', 'e', 'd']
}

/// The state named by a `STATE` column value: the exact words `Running` and
/// `Stopped`, anything else `Unknown`.
pub open spec fn state_named(s: Seq<char>) -> InstanceState {
    if s == running_word() {
        InstanceState::Running
    } else if s == stopped_word() {
        InstanceState::Stopped
    } else {
        InstanceState::Unknown
    }
}

impl InstanceState {
    /// Reads a state name; never fails (unknown words give `Unknown`).
    pub fn from_chars(s: &Vec<char>) -> (r: InstanceState)
        ensures
            r == state_named(s@),
    {
        let running: Vec<char> = vec!['R', 'u', 'n', 'n', 'i', 'n', 'g'];
        let stopped: Vec<char> = vec!['S', 't', 'o', 'p', 'p', 'e', 'd'];
        assert(running@ =~= running_word());
        assert(stopped@ =~= stopped_word());
        if crate::text::chars_eq(s, &running) {
            InstanceState::Running
        } else if crate::text::chars_eq(s, &stopped) {
            InstanceState::Stopped
        } else {
            InstanceState::Unknown
        }
    }

    pub fn parse_state(s: &str) -> (r: InstanceState)
        ensures
            r == state_named(s@),
    {
        let v = crate::text::str_to_chars(s);
        InstanceState::from_chars(&v)
    }
}

impl std::str::FromStr for InstanceState {
    type Err = String;

    fn from_str(s: &str) -> (r: Result<InstanceState, String>)
        ensures
            r matches Ok(st) && st == state_named(s@),
    {
        Ok(InstanceState::parse_state(s))
    }
}

/// One WSL distribution as listed by `wsl --list --verbose`, with the details
/// gathered afterwards.
#[derive(Clone, Debug, PartialEq, Eq)]
pub struct WslInstance {
    pub name: String,
    pub state: InstanceState,
    pub version: u8,
    pub default: bool,
    pub distribution: Option<String>,
    pub ip_address: Option<String>,
}

/// Mathematical value of an instance.
pub struct InstanceView {
    pub name: Seq<char>,
    pub state: InstanceState,
    pub version: u8,
    pub default: bool,
    pub distribution: Option<Seq<char>>,
    pub ip_address: Option<Seq<char>>,
}

pub open spec fn opt_view(o: Option<String>) -> Option<Seq<char>> {
    match o {
        Some(s) => Some(s@),
        None => None,
    }
}

impl View for WslInstance {
    type V = InstanceView;

    open spec fn view(&self) -> InstanceView {
        InstanceView {
            name: self.name@,
            state: self.state,
            version: self.version,
            default: self.default,
            distribution: opt_view(self.distribution),
            ip_address: opt_view(self.ip_address),
        }
    }
}

/// Views of a list of instances.
pub open spec fn instance_views(v: Seq<WslInstance>) -> Seq<InstanceView> {
    v.map_values(|i: WslInstance| i@)
}

pub fn clone_opt_string(o: &Option<String>) -> (r: Option<String>)
    ensures
        opt_view(r) == opt_view(*o),
{
    match o {
        Some(s) => Some(s.clone()),
        None => None,
    }
}

impl WslInstance {
    pub fn duplicate(&self) -> (r: WslInstance)
        ensures
            r@ == self@,
    {
        WslInstance {
            name: self.name.clone(),
            state: self.state,
            version: self.version,
            default: self.default,
            distribution: clone_opt_string(&self.distribution),
            ip_address: clone_opt_string(&self.ip_address),
        }
    }
}

// ---------------------------------------------------------------------------
// Key/value fields of the version report
// ---------------------------------------------------------------------------

pub type Entries = Seq<(Seq<char>, Seq<char>)>;

/// Index of the entry with key `k` at or after `i`.
pub open spec fn key_index_from(e: Entries, k: Seq<char>, i: int) -> Option<int>
    decreases e.len() - i,
{
    if i < 0 || i >= e.len() {
        None
    } else if e[i].0 == k {
        Some(i)
    } else {
        key_index_from(e, k, i + 1)
    }
}

pub open spec fn key_index(e: Entries, k: Seq<char>) -> Option<int> {
    key_index_from(e, k, 0)
}

pub open spec fn keys_unique(e: Entries) -> bool {
    forall|i: int, j: int| 0 <= i < j < e.len() ==> #[trigger] e[i].0 != #[trigger] e[j].0
}

/// `HashMap::insert`: the value of an existing key is replaced, a new key is
/// appended.
pub open spec fn entries_insert(e: Entries, k: Seq<char>, v: Seq<char>) -> Entries {
    match key_index(e, k) {
        Some(i) => e.update(i, (k, v)),
        None => e.push((k, v)),
    }
}

/// `entry(k).or_insert(v)`: a new key is appended, an existing one is kept.
pub open spec fn entries_insert_absent(e: Entries, k: Seq<char>, v: Seq<char>) -> Entries {
    match key_index(e, k) {
        Some(_) => e,
        None => e.push((k, v)),
    }
}

/// The value stored under `k`.
pub open spec fn entries_get(e: Entries, k: Seq<char>) -> Option<Seq<char>> {
    match key_index(e, k) {
        Some(i) => Some(e[i].1),
        None => None,
    }
}

pub proof fn lemma_key_index_from(e: Entries, k: Seq<char>, i: int)
    requires
        0 <= i,
    ensures
        key_index_from(e, k, i) matches Some(j) ==> i <= j < e.len() && e[j].0 == k && forall|
            m: int,
        |
            i <= m < j ==> #[trigger] e[m].0 != k,
        key_index_from(e, k, i) is None ==> forall|m: int| i <= m < e.len() ==> #[trigger] e[m].0 != k,
    decreases e.len() - i,
{
    if i < e.len() && e[i].0 != k {
        lemma_key_index_from(e, k, i + 1);
    }
}

pub proof fn lemma_insert_keeps_unique(e: Entries, k: Seq<char>, v: Seq<char>)
    requires
        keys_unique(e),
    ensures
        keys_unique(entries_insert(e, k, v)),
        keys_unique(entries_insert_absent(e, k, v)),
{
    lemma_key_index_from(e, k, 0);
}

proof fn lemma_key_index_from_push(e: Entries, p: (Seq<char>, Seq<char>), q: Seq<char>, j: int)
    requires
        0 <= j <= e.len(),
    ensures
        key_index_from(e.push(p), q, j) == match key_index_from(e, q, j) {
            Some(i) => Some(i),
            None => if p.0 == q {
                Some(e.len() as int)
            } else {
                None
            },
        },
    decreases e.len() - j,
{
    if j < e.len() {
        assert(e.push(p)[j] == e[j]);
        lemma_key_index_from_push(e, p, q, j + 1);
    } else {
        assert(e.push(p)[j] == p);
        assert(key_index_from(e.push(p), q, j + 1) is None);
    }
}

/// Looking a key up after `entry(k).or_insert(v)`: `v` if `k` was absent,
/// otherwise what was there.
pub proof fn lemma_get_insert_absent(b: Entries, k: Seq<char>, v: Seq<char>, q: Seq<char>)
    ensures
        entries_get(entries_insert_absent(b, k, v), q) == if q == k && entries_get(b, k) is None {
            Some(v)
        } else {
            entries_get(b, q)
        },
{
    lemma_key_index_from(b, k, 0);
    lemma_key_index_from(b, q, 0);
    if key_index(b, k) is None {
        lemma_key_index_from_push(b, (k, v), q, 0);
        let e = b.push((k, v));
        if let Some(i) = key_index(b, q) {
            assert(e[i] == b[i]);
        }
    }
}

/// Key/value pairs in the order their keys were first inserted, each key once.
#[derive(Debug, PartialEq, Eq)]
pub struct FieldMap {
    entries: Vec<(String, String)>,
}

pub open spec fn pair_views(v: Seq<(String, String)>) -> Entries {
    v.map_values(|p: (String, String)| (p.0@, p.1@))
}

impl View for FieldMap {
    type V = Entries;

    closed spec fn view(&self) -> Entries {
        pair_views(self.entries@)
    }
}

impl FieldMap {
    #[verifier::type_invariant]
    closed spec fn unique(&self) -> bool {
        keys_unique(pair_views(self.entries@))
    }

    pub fn new() -> (r: FieldMap)
        ensures
            r@ == Seq::<(Seq<char>, Seq<char>)>::empty(),
    {
        let r = FieldMap { entries: Vec::new() };
        assert(pair_views(r.entries@) =~= Seq::<(Seq<char>, Seq<char>)>::empty());
        r
    }

    pub fn len(&self) -> (n: usize)
        ensures
            n == self@.len(),
    {
        self.entries.len()
    }

    pub fn key(&self, i: usize) -> (k: &String)
        requires
            i < self@.len(),
        ensures
            k@ == self@[i as int].0,
    {
        &self.entries[i].0
    }

    pub fn value(&self, i: usize) -> (v: &String)
        requires
            i < self@.len(),
        ensures
            v@ == self@[i as int].1,
    {
        &self.entries[i].1
    }

    /// Position of `k`, if present.
    pub fn find(&self, k: &String) -> (r: Option<usize>)
        ensures
            r matches Some(i) ==> key_index(self@, k@) == Some(i as int),
            r is None ==> key_index(self@, k@) is None,
    {
        let mut i: usize = 0;
        while i < self.entries.len()
            invariant
                i <= self.entries.len(),
                key_index(self@, k@) == key_index_from(self@, k@, i as int),
                self@ == pair_views(self.entries@),
            decreases self.entries.len() - i,
        {
            if self.entries[i].0 == *k {
                return Some(i);
            }
            i = i + 1;
        }
        None
    }

    /// Sets the value of `k`, replacing any earlier one.
    pub fn insert(&mut self, k: String, v: String)
        ensures
            final(self)@ == entries_insert(old(self)@, k@, v@),
    {
        proof {
            use_type_invariant(&*self);
            lemma_insert_keeps_unique(self@, k@, v@);
            lemma_key_index_from(self@, k@, 0);
        }
        match self.find(&k) {
            Some(i) => {
                assert(i < self.entries@.len());
                let ghost before = self.entries@;
                let ghost kv = k@;
                let ghost vv = v@;
                let mut e: Vec<(String, String)> = Vec::new();
                std::mem::swap(&mut e, &mut self.entries);
                e.set(i, (k, v));
                assert(pair_views(e@) =~= pair_views(before).update(i as int, (kv, vv)));
                self.entries = e;
            },
            None => {
                let ghost before = self.entries@;
                let ghost kv = k@;
                let ghost vv = v@;
                let mut e: Vec<(String, String)> = Vec::new();
                std::mem::swap(&mut e, &mut self.entries);
                e.push((k, v));
                assert(pair_views(e@) =~= pair_views(before).push((kv, vv)));
                self.entries = e;
            },
        }
    }

    /// Sets the value of `k` only when `k` is not present yet.
    pub fn insert_if_absent(&mut self, k: String, v: String)
        ensures
            final(self)@ == entries_insert_absent(old(self)@, k@, v@),
    {
        proof {
            use_type_invariant(&*self);
            lemma_insert_keeps_unique(self@, k@, v@);
        }
        match self.find(&k) {
            Some(_) => {},
            None => {
                let ghost before = self.entries@;
                let ghost kv = k@;
                let ghost vv = v@;
                let mut e: Vec<(String, String)> = Vec::new();
                std::mem::swap(&mut e, &mut self.entries);
                e.push((k, v));
                assert(pair_views(e@) =~= pair_views(before).push((kv, vv)));
                self.entries = e;
            },
        }
    }
}

/// Version information reported by `wsl --version` / `wsl --status`.
#[derive(Debug, PartialEq, Eq)]
pub struct WslVersion {
    pub wsl_version: Option<String>,
    pub kernel_version: Option<String>,
    pub windows_version: Option<String>,
    pub fields: FieldMap,
    pub raw: String,
}

} // verus!
