//! The build state of each application (the hash of its sources when it
//! was last built), and the hash of a source folder.

use vstd::prelude::*;
use crate::named_map::NamedMap;
use crate::text::{str_eq, views};

verus! {

/// What was built of one application.
#[derive(Debug)]
pub struct AppState {
    /// The application's name.
    pub app_name: String,
    /// The hash of its sources.
    pub hash: String,
    /// When it was built, in seconds since the Unix epoch.
    pub last_built: i64,
    /// Whether its image exists.
    pub image_exists: bool,
}

/// The mathematical value of an `AppState`.
pub struct AppStateView {
    pub app_name: Seq<char>,
    pub hash: Seq<char>,
    pub last_built: i64,
    pub image_exists: bool,
}

impl View for AppState {
    type V = AppStateView;

    open spec fn view(&self) -> AppStateView {
        AppStateView {
            app_name: self.app_name@,
            hash: self.hash@,
            last_built: self.last_built,
            image_exists: self.image_exists,
        }
    }
}

/// Whether `s` is the state of some application in `states`.
pub open spec fn is_state_of(states: Map<Seq<char>, AppStateView>, s: AppStateView) -> bool {
    exists|k: Seq<char>| #[trigger] states.contains_key(k) && states[k] == s
}

/// Whether application `name` must be built from sources with hash `hash`:
/// it has no state, or its recorded hash differs.
pub open spec fn rebuild_needed(states: Map<Seq<char>, AppStateView>, name: Seq<char>, hash: Seq<char>) -> bool {
    !states.contains_key(name) || states[name].hash != hash
}

/// Once a build of `name` from sources with hash `hash` is recorded (at
/// any time `t`), `name` needs no rebuild for those sources and needs one
/// for any others, and every other application needs one exactly as
/// before; once its state is removed, it needs one again.
pub proof fn law_recorded_build_is_current(
    states: Map<Seq<char>, AppStateView>,
    name: Seq<char>,
    hash: Seq<char>,
    t: i64,
    image_exists: bool,
    other_name: Seq<char>,
    other_hash: Seq<char>,
)
    ensures
        ({
            let after = states.insert(name, AppStateView { app_name: name, hash, last_built: t, image_exists });
            &&& !rebuild_needed(after, name, hash)
            &&& other_hash != hash ==> rebuild_needed(after, name, other_hash)
            &&& other_name != name ==> rebuild_needed(after, other_name, other_hash) == rebuild_needed(
                states,
                other_name,
                other_hash,
            )
        }),
        rebuild_needed(states.remove(name), name, hash),
{
}

/// The build states of all applications, kept in a state file.
#[derive(Debug)]
pub struct StateManager {
    state_file_path: String,
    states: NamedMap<AppState>,
}

impl View for StateManager {
    type V = Map<Seq<char>, AppStateView>;

    closed spec fn view(&self) -> Map<Seq<char>, AppStateView> {
        self.states@
    }
}

impl StateManager {
    /// An empty manager for the state file `state_file_path`.
    pub fn new(state_file_path: &str) -> (r: Self)
        ensures
            r@ == Map::<Seq<char>, AppStateView>::empty(),
            r.path_view() == state_file_path@,
    {
        StateManager { state_file_path: state_file_path.to_owned(), states: NamedMap::new() }
    }

    /// The state file.
    pub closed spec fn path_view(&self) -> Seq<char> {
        self.state_file_path@
    }

    /// The state file.
    pub fn state_file_path(&self) -> (r: &String)
        ensures
            r@ == self.path_view(),
    {
        &self.state_file_path
    }

    /// Replaces the states with those read from the state file.
    pub fn load_states(&mut self, states: NamedMap<AppState>)
        ensures
            final(self)@ == states@,
            final(self).path_view() == old(self).path_view(),
    {
        self.states = states;
    }

    /// The states, by application name.
    pub fn states(&self) -> (r: &NamedMap<AppState>)
        ensures
            r@ == self@,
    {
        &self.states
    }

    /// The state of `app_name`, if any.
    pub fn get_state(&self, app_name: &str) -> (r: Option<&AppState>)
        ensures
            r is Some <==> self@.contains_key(app_name@),
            r matches Some(s) ==> s@ == self@[app_name@],
    {
        self.states.get(app_name)
    }

    /// Records that `app_name` was built at `last_built` (seconds since
    /// the Unix epoch) from sources with hash `hash`.
    pub fn update_state(&mut self, app_name: &str, hash: String, image_exists: bool, last_built: i64)
        ensures
            final(self).path_view() == old(self).path_view(),
            final(self)@ == old(self)@.insert(
                app_name@,
                AppStateView { app_name: app_name@, hash: hash@, last_built, image_exists },
            ),
    {
        let state = AppState { app_name: app_name.to_owned(), hash, last_built, image_exists };
        self.states.insert(app_name.to_owned(), state);
    }

    /// Forgets the state of `app_name`.
    pub fn remove_state(&mut self, app_name: &str)
        ensures
            final(self).path_view() == old(self).path_view(),
            final(self)@ == old(self)@.remove(app_name@),
    {
        self.states.remove(app_name);
    }

    /// Whether `app_name` must be built again: it has no state, or its
    /// sources changed since.
    pub fn needs_rebuild(&self, app_name: &str, current_hash: &str) -> (r: bool)
        ensures
            r == rebuild_needed(self@, app_name@, current_hash@),
    {
        match self.states.get(app_name) {
            Some(state) => !str_eq(state.hash.as_str(), current_hash),
            None => true,
        }
    }

    /// All states, one per application.
    pub fn get_all_states(&self) -> (r: Vec<&AppState>)
        ensures
            r@.len() == self@.dom().len(),
            forall|i: int| 0 <= i < r@.len() ==> is_state_of(self@, #[trigger] r@[i]@),
            forall|k: Seq<char>| #[trigger] self@.contains_key(k) ==> exists|i: int| 0 <= i < r@.len() && r@[i]@ == self@[k],
    {
        let entries = self.states.entries();
        let n = self.states.len();
        let mut r: Vec<&AppState> = Vec::new();
        let mut i: usize = 0;
        while i < entries.len()
            invariant
                i <= entries@.len(),
                r@.len() == i,
                forall|j: int| 0 <= j < i ==> #[trigger] r@[j] == &entries@[j].1,
            decreases entries.len() - i,
        {
            r.push(&entries[i].1);
            i = i + 1;
        }
        proof {
            assert forall|j: int| 0 <= j < r@.len() implies is_state_of(self@, #[trigger] r@[j]@) by {
                let k = entries@[j].0@;
                assert(self@.contains_key(k));
                assert(self@[k] == entries@[j].1@);
                assert(r@[j]@ == entries@[j].1@);
            }
            assert forall|k: Seq<char>| #[trigger] self@.contains_key(k) implies exists|i: int| 0 <= i < r@.len() && r@[i]@ == self@[k] by {
                let i = choose|i: int| 0 <= i < entries@.len() && entries@[i].0@ == k;
                assert(self@[entries@[i].0@] == entries@[i].1@);
                assert(r@[i]@ == entries@[i].1@);
            }
        }
        r
    }
}

/// The SHA-256 digest of some bytes.
pub uninterp spec fn sha256(data: Seq<u8>) -> Seq<u8>;

/// The SHA-256 digest (`sha2::Sha256::digest`): 32 bytes.
#[verifier::external_body]
fn sha256_digest(data: &[u8]) -> (r: Vec<u8>)
    ensures
        r@ == sha256(data@),
        r@.len() == 32,
{
    <sha2::Sha256 as sha2::Digest>::digest(data).to_vec()
}

/// The lowercase hexadecimal digit of `d < 16`.
pub open spec fn hex_digit(d: u8) -> char {
    if d < 10 {
        ((d + 48) as u32) as char
    } else {
        ((d + 87) as u32) as char
    }
}

/// Bytes in lowercase hexadecimal, two digits each (`{:x}` of a digest).
pub open spec fn hex_of(bytes: Seq<u8>) -> Seq<char>
    decreases bytes.len(),
{
    if bytes.len() == 0 {
        seq![]
    } else {
        hex_of(bytes.drop_last()) + seq![hex_digit(bytes.last() / 16), hex_digit(bytes.last() % 16)]
    }
}

/// Executable `hex_digit`.
fn hex_char(d: u8) -> (c: char)
    requires
        d < 16,
    ensures
        c == hex_digit(d),
{
    let table = ['0', '1', '2', '3', '4', '5', '6', '7', '8', '9', 'a', 'b', 'c', 'd', 'e', 'f'];
    let c = table[d as usize];
    assert(c == hex_digit(d)) by {
        assert(table@ == seq!['0', '1', '2', '3', '4', '5', '6', '7', '8', '9', 'a', 'b', 'c', 'd', 'e', 'f']);
    }
    c
}

/// Bytes in lowercase hexadecimal (see `hex_of`).
pub fn to_hex(bytes: &[u8]) -> (r: String)
    ensures
        r@ == hex_of(bytes@),
{
    let mut r = String::new();
    let mut i: usize = 0;
    while i < bytes.len()
        invariant
            i <= bytes.len(),
            r@ == hex_of(bytes@.take(i as int)),
        decreases bytes.len() - i,
    {
        assert(bytes@.take(i + 1).drop_last() =~= bytes@.take(i as int));
        let b = bytes[i];
        crate::text::push_char(&mut r, hex_char(b / 16));
        crate::text::push_char(&mut r, hex_char(b % 16));
        assert(r@ =~= hex_of(bytes@.take(i + 1)));
        i = i + 1;
    }
    assert(bytes@.take(i as int) =~= bytes@);
    r
}

/// One entry of a source folder walk, in walk order: its file name, its
/// path (as text, in bytes), and its contents when it is a file.
#[derive(Debug)]
pub struct HashEntry {
    /// The entry's file name.
    pub file_name: String,
    /// The entry's path, as UTF-8 text.
    pub path_bytes: Vec<u8>,
    /// The contents, for a file.
    pub content: Option<Vec<u8>>,
}

/// The mathematical value of a `HashEntry`.
pub struct HashEntryView {
    pub file_name: Seq<char>,
    pub path_bytes: Seq<u8>,
    pub content: Option<Seq<u8>>,
}

impl View for HashEntry {
    type V = HashEntryView;

    open spec fn view(&self) -> HashEntryView {
        HashEntryView {
            file_name: self.file_name@,
            path_bytes: self.path_bytes@,
            content: match self.content {
                Some(c) => Some(c@),
                None => None,
            },
        }
    }
}

/// The bytes hashed for a walk: for each entry not named `.git`, its path
/// and then, for a file, its contents.
pub open spec fn hash_input(entries: Seq<HashEntryView>) -> Seq<u8>
    decreases entries.len(),
{
    if entries.len() == 0 {
        seq![]
    } else {
        let e = entries.last();
        hash_input(entries.drop_last()) + if e.file_name == ".git"@ {
            seq![]
        } else {
            e.path_bytes + match e.content {
                Some(c) => c,
                None => seq![],
            }
        }
    }
}

/// Appends bytes to a byte vector.
fn append_bytes(v: &mut Vec<u8>, b: &Vec<u8>)
    ensures
        final(v)@ == old(v)@ + b@,
{
    let mut i: usize = 0;
    let ghost start = v@;
    while i < b.len()
        invariant
            i <= b.len(),
            v@ == start + b@.take(i as int),
        decreases b.len() - i,
    {
        v.push(b[i]);
        i = i + 1;
        assert(v@ =~= start + b@.take(i as int));
    }
    assert(b@.take(i as int) =~= b@);
}

/// The hash of a source folder from its walk: the SHA-256 of
/// `hash_input`, in lowercase hexadecimal.
pub fn directory_hash(entries: &[HashEntry]) -> (r: String)
    ensures
        r@ == hex_of(sha256(hash_input(entries@.map_values(|e: HashEntry| e@)))),
{
    let ghost ev = entries@.map_values(|e: HashEntry| e@);
    let mut data: Vec<u8> = Vec::new();
    let mut i: usize = 0;
    while i < entries.len()
        invariant
            i <= entries.len(),
            ev == entries@.map_values(|e: HashEntry| e@),
            data@ == hash_input(ev.take(i as int)),
        decreases entries.len() - i,
    {
        assert(ev.take(i + 1).drop_last() =~= ev.take(i as int));
        assert(ev.take(i + 1).last() == entries@[i as int]@);
        let e = &entries[i];
        let ghost before = data@;
        if !str_eq(e.file_name.as_str(), ".git") {
            append_bytes(&mut data, &e.path_bytes);
            match &e.content {
                Some(c) => {
                    append_bytes(&mut data, c);
                },
                None => {},
            }
            assert(data@ =~= before + (e@.path_bytes + match e@.content {
                Some(c) => c,
                None => seq![],
            }));
        } else {
            assert(data@ =~= before + Seq::<u8>::empty());
        }
        i = i + 1;
    }
    assert(ev.take(i as int) =~= ev);
    let digest = sha256_digest(data.as_slice());
    to_hex(digest.as_slice())
}

} // verus!

verus! {

/// The bytes hashed for walks taken one after the other are those of the
/// first walk followed by those of the second.
proof fn lemma_hash_input_concat(s: Seq<HashEntryView>, t: Seq<HashEntryView>)
    ensures
        hash_input(s + t) == hash_input(s) + hash_input(t),
    decreases t.len(),
{
    if t.len() == 0 {
        assert(s + t =~= s);
        assert(hash_input(s) + hash_input(t) =~= hash_input(s));
    } else {
        lemma_hash_input_concat(s, t.drop_last());
        assert((s + t).drop_last() =~= s + t.drop_last());
        assert((s + t).last() == t.last());
    }
}

/// Two files at one path with different contents are hashed from
/// different bytes.
proof fn lemma_same_path_new_content(e: HashEntryView, f: HashEntryView)
    ensures
        e.file_name != ".git"@ && f.file_name != ".git"@ && e.path_bytes == f.path_bytes && e.content is Some
            && f.content is Some && e.content->0 != f.content->0 ==> hash_input(seq![e]) != hash_input(seq![f]),
{
    if e.file_name != ".git"@ && f.file_name != ".git"@ && e.path_bytes == f.path_bytes && e.content is Some
        && f.content is Some && e.content->0 != f.content->0 {
        let p = e.path_bytes;
        let c = e.content->0;
        let g = f.content->0;
        assert(seq![e].drop_last() =~= Seq::<HashEntryView>::empty());
        assert(seq![f].drop_last() =~= Seq::<HashEntryView>::empty());
        assert(hash_input(Seq::<HashEntryView>::empty()) =~= Seq::<u8>::empty());
        assert(seq![e].last() == e && seq![f].last() == f);
        assert(hash_input(seq![e]) =~= p + c);
        assert(hash_input(seq![f]) =~= p + g);
        if c.len() == g.len() {
            assert(exists|k: int| 0 <= k < c.len() && c[k] != g[k]) by {
                if !(exists|k: int| 0 <= k < c.len() && c[k] != g[k]) {
                    assert(c =~= g);
                }
            }
            let k = choose|k: int| 0 <= k < c.len() && c[k] != g[k];
            assert((p + c)[p.len() + k] != (p + g)[p.len() + k]);
        } else {
            assert((p + c).len() != (p + g).len());
        }
    }
}

/// The hash of a folder covers the paths of its entries as well as their
/// contents, in walk order, and skips entries named `.git`:
/// - the bytes hashed for a walk are those of its entries, one after the
///   other;
/// - for one entry not named `.git` they are its path followed by its
///   contents (nothing more for a folder);
/// - an entry named `.git` adds nothing;
/// - so two single-entry walks with the same contents under different
///   paths are hashed from different bytes (a renamed or moved file is a
///   change), and so are two files at one path with different contents.
pub proof fn law_walk_hash_covers_paths_and_contents(
    s: Seq<HashEntryView>,
    t: Seq<HashEntryView>,
    e: HashEntryView,
    f: HashEntryView,
)
    ensures
        hash_input(s + t) == hash_input(s) + hash_input(t),
        e.file_name != ".git"@ ==> hash_input(seq![e]) == e.path_bytes + match e.content {
            Some(c) => c,
            None => Seq::<u8>::empty(),
        },
        e.file_name == ".git"@ ==> hash_input(seq![e]) == Seq::<u8>::empty(),
        e.file_name != ".git"@ && f.file_name != ".git"@ && e.content == f.content && e.path_bytes
            != f.path_bytes ==> hash_input(seq![e]) != hash_input(seq![f]),
        e.file_name != ".git"@ && f.file_name != ".git"@ && e.path_bytes == f.path_bytes && e.content is Some
            && f.content is Some && e.content->0 != f.content->0 ==> hash_input(seq![e]) != hash_input(seq![f]),
{
    lemma_same_path_new_content(e, f);
    lemma_hash_input_concat(s, t);
    assert(seq![e].drop_last() =~= Seq::<HashEntryView>::empty());
    assert(seq![f].drop_last() =~= Seq::<HashEntryView>::empty());
    assert(hash_input(Seq::<HashEntryView>::empty()) =~= Seq::<u8>::empty());
    if e.file_name != ".git"@ && f.file_name != ".git"@ && e.content == f.content && e.path_bytes != f.path_bytes {
        let c = match e.content {
            Some(c) => c,
            None => Seq::<u8>::empty(),
        };
        assert(hash_input(seq![e]) =~= e.path_bytes + c);
        assert(hash_input(seq![f]) =~= f.path_bytes + c);
        if e.path_bytes.len() == f.path_bytes.len() {
            let k = choose|k: int| 0 <= k < e.path_bytes.len() && e.path_bytes[k] != f.path_bytes[k];
            assert(exists|k: int| 0 <= k < e.path_bytes.len() && e.path_bytes[k] != f.path_bytes[k]) by {
                if !(exists|k: int| 0 <= k < e.path_bytes.len() && e.path_bytes[k] != f.path_bytes[k]) {
                    assert(e.path_bytes =~= f.path_bytes);
                }
            }
            assert((e.path_bytes + c)[k] != (f.path_bytes + c)[k]);
        } else {
            assert((e.path_bytes + c).len() != (f.path_bytes + c).len());
        }
    }
}

} // verus!
