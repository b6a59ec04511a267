//! Image versions and the deployment state of each application: which
//! image is active, which one a rollback returns to, and which older ones
//! are kept.

use vstd::prelude::*;
use crate::error::{Error, ErrorKind};
use crate::named_map::NamedMap;
use crate::config::{app_views, find_app, first_named, names_app, AppConfig, AppConfigView};
use crate::text::{byte_len, char_width, chars_of, utf8_width, clone_opt, clone_strings, concat3, concat5, contains_string, opt_is, opt_view, push_char, str_eq, views};

verus! {

/// What is deployed of one application.
#[derive(Debug, PartialEq, Eq)]
pub struct DeploymentState {
    /// The image that runs now.
    pub active_image: Option<String>,
    /// The image a rollback returns to.
    pub previous_image: Option<String>,
    /// Images deployed before `previous_image`, newest first.
    pub history_images: Vec<String>,
    /// The container that runs the active image.
    pub active_container: Option<String>,
    /// The container of the previous image.
    pub previous_container: Option<String>,
}

/// The mathematical value of a `DeploymentState`.
pub struct DeploymentStateView {
    pub active_image: Option<Seq<char>>,
    pub previous_image: Option<Seq<char>>,
    pub history_images: Seq<Seq<char>>,
    pub active_container: Option<Seq<char>>,
    pub previous_container: Option<Seq<char>>,
}

impl View for DeploymentState {
    type V = DeploymentStateView;

    open spec fn view(&self) -> DeploymentStateView {
        DeploymentStateView {
            active_image: opt_view(self.active_image),
            previous_image: opt_view(self.previous_image),
            history_images: views(self.history_images@),
            active_container: opt_view(self.active_container),
            previous_container: opt_view(self.previous_container),
        }
    }
}

/// The state of an application that was never deployed.
pub open spec fn empty_state() -> DeploymentStateView {
    DeploymentStateView {
        active_image: None,
        previous_image: None,
        history_images: seq![],
        active_container: None,
        previous_container: None,
    }
}

/// The history that `normalize_history` keeps: the first occurrence of
/// each image that is neither active nor previous, in order.
pub open spec fn kept_history(
    h: Seq<Seq<char>>,
    active: Option<Seq<char>>,
    previous: Option<Seq<char>>,
) -> Seq<Seq<char>>
    decreases h.len(),
{
    if h.len() == 0 {
        seq![]
    } else {
        let k = kept_history(h.drop_last(), active, previous);
        let x = h.last();
        if active == Some(x) || previous == Some(x) || k.contains(x) {
            k
        } else {
            k.push(x)
        }
    }
}

/// `s` with its history normalized.
pub open spec fn normalized(s: DeploymentStateView) -> DeploymentStateView {
    DeploymentStateView {
        history_images: kept_history(s.history_images, s.active_image, s.previous_image),
        ..s
    }
}

/// `h` without any occurrence of `x`.
pub open spec fn without(h: Seq<Seq<char>>, x: Seq<char>) -> Seq<Seq<char>>
    decreases h.len(),
{
    if h.len() == 0 {
        seq![]
    } else {
        let r = without(h.drop_last(), x);
        if h.last() == x {
            r
        } else {
            r.push(h.last())
        }
    }
}

/// The state after `image` is deployed in `container`: the active version
/// becomes the rollback version, the superseded rollback version goes to
/// the front of the history.
pub open spec fn activated(
    s: DeploymentStateView,
    image: Seq<char>,
    container: Seq<char>,
) -> DeploymentStateView {
    let h1 = without(normalized(s).history_images, image);
    let h2 = match s.previous_image {
        Some(p) => if p != image {
            seq![p] + h1
        } else {
            h1
        },
        None => h1,
    };
    normalized(
        DeploymentStateView {
            active_image: Some(image),
            previous_image: s.active_image,
            history_images: h2,
            active_container: Some(container),
            previous_container: s.active_container,
        },
    )
}

/// The state after a rollback: active and previous versions trade places.
pub open spec fn rolled_back(s: DeploymentStateView) -> DeploymentStateView {
    normalized(
        DeploymentStateView {
            active_image: s.previous_image,
            previous_image: s.active_image,
            history_images: s.history_images,
            active_container: s.previous_container,
            previous_container: s.active_container,
        },
    )
}

/// `s` with its history emptied.
pub open spec fn history_cleared(s: DeploymentStateView) -> DeploymentStateView {
    DeploymentStateView { history_images: seq![], ..s }
}

/// The image reference a legacy installation runs: `<app>:latest`.
pub open spec fn legacy_image(app_name: Seq<char>) -> Seq<char> {
    app_name + ":latest"@
}

/// The state of `app_name` in `states`, or the empty state.
pub open spec fn state_or_empty(
    states: Map<Seq<char>, DeploymentStateView>,
    app_name: Seq<char>,
) -> DeploymentStateView {
    if states.contains_key(app_name) {
        states[app_name]
    } else {
        empty_state()
    }
}

/// The history is free of repeats and of the active and previous images.
pub open spec fn history_clean(s: DeploymentStateView) -> bool {
    &&& s.history_images.no_duplicates()
    &&& forall|i: int|
        0 <= i < s.history_images.len() ==> s.active_image != Some(#[trigger] s.history_images[i])
            && s.previous_image != Some(s.history_images[i])
}

/// Every image the state knows of: active, previous and history.
pub open spec fn known_images(s: DeploymentStateView) -> Set<Seq<char>> {
    let a = match s.active_image {
        Some(x) => set![x],
        None => Set::empty(),
    };
    let p = match s.previous_image {
        Some(x) => set![x],
        None => Set::empty(),
    };
    a + p + s.history_images.to_set()
}

impl Default for DeploymentState {
    fn default() -> (r: Self)
        ensures
            r@ == empty_state(),
    {
        let r = DeploymentState {
            active_image: None,
            previous_image: None,
            history_images: Vec::new(),
            active_container: None,
            previous_container: None,
        };
        assert(r@.history_images =~= seq![]);
        r
    }
}

impl Clone for DeploymentState {
    fn clone(&self) -> (r: Self)
        ensures
            r@ == self@,
    {
        DeploymentState {
            active_image: clone_opt(&self.active_image),
            previous_image: clone_opt(&self.previous_image),
            history_images: clone_strings(&self.history_images),
            active_container: clone_opt(&self.active_container),
            previous_container: clone_opt(&self.previous_container),
        }
    }
}

impl DeploymentState {
    /// Puts `image`, if any, at the front of the history.
    pub fn prepend_history(&mut self, image: Option<String>)
        ensures
            final(self)@ == (match opt_view(image) {
                Some(x) => DeploymentStateView {
                    history_images: seq![x] + old(self)@.history_images,
                    ..old(self)@
                },
                None => old(self)@,
            }),
    {
        if let Some(image) = image {
            let ghost h = self.history_images@;
            self.history_images.insert(0, image);
            assert(views(self.history_images@) =~= seq![self.history_images@[0]@] + views(h));
        }
    }

    /// Drops from the history repeated images and the active and previous
    /// images, keeping the first occurrence of the others in order.
    pub fn normalize_history(&mut self)
        ensures
            final(self)@ == normalized(old(self)@),
    {
        let ghost h = views(self.history_images@);
        let mut normalized: Vec<String> = Vec::new();
        let mut i: usize = 0;
        while i < self.history_images.len()
            invariant
                h == views(self.history_images@),
                i <= self.history_images.len(),
                views(normalized@) == kept_history(
                    h.take(i as int),
                    opt_view(self.active_image),
                    opt_view(self.previous_image),
                ),
            decreases self.history_images.len() - i,
        {
            let image = &self.history_images[i];
            let is_deployed = opt_is(&self.active_image, image.as_str()) || opt_is(
                &self.previous_image,
                image.as_str(),
            );
            assert(h.take(i + 1).drop_last() =~= h.take(i as int));
            if !is_deployed && !contains_string(&normalized, image.as_str()) {
                let ghost old_n = normalized@;
                normalized.push(image.clone());
                assert(views(normalized@) =~= views(old_n).push(image@));
            }
            i = i + 1;
        }
        assert(h.take(i as int) =~= h);
        self.history_images = normalized;
    }
}

/// Removes every occurrence of `x` from `v`.
fn remove_all(v: &mut Vec<String>, x: &str)
    ensures
        views(final(v)@) == without(views(old(v)@), x@),
{
    let ghost h = views(v@);
    let mut kept: Vec<String> = Vec::new();
    let mut i: usize = 0;
    while i < v.len()
        invariant
            h == views(v@),
            i <= v.len(),
            views(kept@) == without(h.take(i as int), x@),
        decreases v.len() - i,
    {
        assert(h.take(i + 1).drop_last() =~= h.take(i as int));
        if !crate::text::str_eq(v[i].as_str(), x) {
            let ghost old_k = kept@;
            kept.push(v[i].clone());
            assert(views(kept@) =~= views(old_k).push(v@[i as int]@));
        }
        i = i + 1;
    }
    assert(h.take(i as int) =~= h);
    *v = kept;
}

/// The deployment states of all applications, by application name.
#[derive(Debug)]
pub struct DeploymentStore {
    path: String,
    states: NamedMap<DeploymentState>,
}

impl View for DeploymentStore {
    type V = Map<Seq<char>, DeploymentStateView>;

    closed spec fn view(&self) -> Map<Seq<char>, DeploymentStateView> {
        self.states@
    }
}

impl DeploymentStore {
    /// An empty store kept in the file at `path`.
    pub fn new(path: &str) -> (r: Self)
        ensures
            r@ == Map::<Seq<char>, DeploymentStateView>::empty(),
            r.path_view() == path@,
    {
        DeploymentStore { path: path.to_owned(), states: NamedMap::new() }
    }

    /// The file the store is kept in.
    pub closed spec fn path_view(&self) -> Seq<char> {
        self.path@
    }

    /// The file the store is kept in.
    pub fn path(&self) -> (r: &String)
        ensures
            r@ == self.path_view(),
    {
        &self.path
    }

    /// Replaces the states with those read from the store's file,
    /// normalizing the history of each.
    pub fn load_states(&mut self, states: NamedMap<DeploymentState>)
        ensures
            final(self).path_view() == old(self).path_view(),
            final(self)@ == Map::new(
                |k: Seq<char>| states@.contains_key(k),
                |k: Seq<char>| normalized(states@[k]),
            ),
    {
        self.states = states;
        self.update_all(false);
    }

    /// Normalizes every state, and empties its history when `clear` holds.
    fn update_all(&mut self, clear: bool)
        ensures
            final(self).path_view() == old(self).path_view(),
            final(self)@ == Map::new(
                |k: Seq<char>| old(self)@.contains_key(k),
                |k: Seq<char>| if clear {
                    history_cleared(old(self)@[k])
                } else {
                    normalized(old(self)@[k])
                },
            ),
    {
        let ghost old_map = self@;
        let ghost target = Map::new(
            |k: Seq<char>| old_map.contains_key(k),
            |k: Seq<char>| if clear {
                history_cleared(old_map[k])
            } else {
                normalized(old_map[k])
            },
        );
        let keys = self.states.keys();
        let ghost ks = views(keys@);
        let mut i: usize = 0;
        while i < keys.len()
            invariant
                ks == views(keys@),
                ks.to_set() == old_map.dom(),
                ks.no_duplicates(),
                target == Map::new(
                    |k: Seq<char>| old_map.contains_key(k),
                    |k: Seq<char>| if clear {
                        history_cleared(old_map[k])
                    } else {
                        normalized(old_map[k])
                    },
                ),
                i <= keys.len(),
                self@.dom() == old_map.dom(),
                self.path_view() == old(self).path_view(),
                forall|j: int| 0 <= j < i ==> self@[#[trigger] ks[j]] == target[ks[j]],
                forall|j: int| i <= j < ks.len() ==> self@[#[trigger] ks[j]] == old_map[ks[j]],
            decreases keys.len() - i,
        {
            let key = &keys[i];
            assert(ks[i as int] == key@);
            assert(ks.to_set().contains(key@));
            assert(self@[ks[i as int]] == old_map[ks[i as int]]);
            let mut state = match self.states.get(key.as_str()) {
                Some(s) => s.clone(),
                None => DeploymentState::default(),
            };
            assert(state@ == old_map[key@]);
            if clear {
                state.history_images = Vec::new();
                assert(views(state.history_images@) =~= seq![]);
                assert(state@ =~= history_cleared(old_map[key@]));
            } else {
                state.normalize_history();
            }
            assert(state@ == target[key@]);
            let ghost before = self@;
            self.states.insert(key.clone(), state);
            proof {
                assert forall|j: int| 0 <= j < i + 1 implies self@[#[trigger] ks[j]] == target[ks[j]] by {
                    if j < i {
                        assert(ks[j] != ks[i as int]);
                        assert(before[ks[j]] == target[ks[j]]);
                    }
                }
                assert forall|j: int| i + 1 <= j < ks.len() implies self@[#[trigger] ks[j]] == old_map[ks[j]] by {
                    assert(ks[j] != ks[i as int]);
                    assert(before[ks[j]] == old_map[ks[j]]);
                }
                assert(self@.dom() =~= old_map.dom());
            }
            i = i + 1;
        }
        proof {
            assert forall|k: Seq<char>| #![auto] self@.contains_key(k) implies self@[k] == target[k] by {
                assert(ks.to_set().contains(k));
                let j = choose|j: int| 0 <= j < ks.len() && ks[j] == k;
            }
            assert(self@ =~= target);
        }
    }

    /// The state of `app_name`, if it was ever deployed.
    pub fn state(&self, app_name: &str) -> (r: Option<&DeploymentState>)
        ensures
            r is Some <==> self@.contains_key(app_name@),
            r matches Some(s) ==> s@ == self@[app_name@],
    {
        self.states.get(app_name)
    }

    /// The states of all applications.
    pub fn states(&self) -> (r: &NamedMap<DeploymentState>)
        ensures
            r@ == self@,
    {
        &self.states
    }

    /// The history of `app_name`: empty when it was never deployed.
    pub fn history_images(&self, app_name: &str) -> (r: &[String])
        ensures
            views(r@) == state_or_empty(self@, app_name@).history_images,
    {
        match self.states.get(app_name) {
            Some(state) => state.history_images.as_slice(),
            None => {
                let r: &[String] = &[];
                assert(views(r@) =~= seq![]);
                r
            },
        }
    }

    /// Empties the history of every application; active and previous
    /// images stay.
    pub fn clear_history_images(&mut self)
        ensures
            final(self).path_view() == old(self).path_view(),
            final(self)@ == Map::new(
                |k: Seq<char>| old(self)@.contains_key(k),
                |k: Seq<char>| history_cleared(old(self)@[k]),
            ),
    {
        self.update_all(true);
    }

    /// Registers an installation from before versioned images: when the
    /// image `<app>:latest` exists and the application has no active image
    /// or container, that image becomes active in `container_name`.
    /// Returns whether the state changed.
    pub fn migrate_legacy(
        &mut self,
        app_name: &str,
        container_name: &str,
        legacy_image_exists: bool,
    ) -> (changed: bool)
        ensures
            final(self).path_view() == old(self).path_view(),
            changed == (legacy_image_exists && state_or_empty(old(self)@, app_name@).active_image is None
                && state_or_empty(old(self)@, app_name@).active_container is None),
            changed ==> final(self)@ == old(self)@.insert(
                app_name@,
                DeploymentStateView {
                    active_image: Some(legacy_image(app_name@)),
                    active_container: Some(container_name@),
                    ..state_or_empty(old(self)@, app_name@)
                },
            ),
            !changed ==> final(self)@ == old(self)@,
    {
        if !legacy_image_exists {
            return false;
        }
        let mut state = match self.states.get(app_name) {
            Some(s) => s.clone(),
            None => DeploymentState::default(),
        };
        if state.active_image.is_some() || state.active_container.is_some() {
            return false;
        }
        let mut image = app_name.to_owned();
        image.append(":latest");
        state.active_image = Some(image);
        state.active_container = Some(container_name.to_owned());
        self.states.insert(app_name.to_owned(), state);
        true
    }

    /// Makes `image`, running in `container`, the active version of
    /// `app_name`. Refused when `image` is already active.
    pub fn activate(&mut self, app_name: &str, image: String, container: String) -> (r: Result<
        (),
        Error,
    >)
        ensures
            final(self).path_view() == old(self).path_view(),
            r is Err <==> state_or_empty(old(self)@, app_name@).active_image == Some(image@),
            r matches Err(e) ==> (e@ == (ErrorKind::State, "应用 '"@ + app_name@ + "' 的镜像 '"@
                + image@ + "' 已是活动版本"@) && final(self)@ == old(self)@),
            r is Ok ==> final(self)@ == old(self)@.insert(
                app_name@,
                activated(state_or_empty(old(self)@, app_name@), image@, container@),
            ),
    {
        let mut state = match self.states.get(app_name) {
            Some(s) => s.clone(),
            None => DeploymentState::default(),
        };
        let ghost s0 = state@;
        if opt_is(&state.active_image, image.as_str()) {
            let msg = concat5("应用 '", app_name, "' 的镜像 '", image.as_str(), "' 已是活动版本");
            return Err(Error::State(msg));
        }
        state.normalize_history();
        remove_all(&mut state.history_images, image.as_str());
        let ghost h1 = state@.history_images;
        let old_previous = clone_opt(&state.previous_image);
        let mut moved: Option<String> = Some(image);
        std::mem::swap(&mut moved, &mut state.active_image);
        state.previous_image = moved;
        let mut moved_container: Option<String> = Some(container);
        std::mem::swap(&mut moved_container, &mut state.active_container);
        state.previous_container = moved_container;
        let supersedes = match (&old_previous, &state.active_image) {
            (Some(p), Some(a)) => !crate::text::str_eq(p.as_str(), a.as_str()),
            (Some(_), None) => true,
            (None, _) => false,
        };
        if supersedes {
            state.prepend_history(old_previous);
        }
        state.normalize_history();
        self.states.insert(app_name.to_owned(), state);
        Ok(())
    }

    /// Returns `app_name` to its previous image and container, and answers
    /// them.
    pub fn rollback(&mut self, app_name: &str) -> (r: Result<(String, String), Error>)
        ensures
            final(self).path_view() == old(self).path_view(),
            !old(self)@.contains_key(app_name@) ==> (r matches Err(e) && e@ == (
                ErrorKind::State,
                "应用 '"@ + app_name@ + "' 没有部署状态"@,
            )),
            old(self)@.contains_key(app_name@) && old(self)@[app_name@].previous_image is None
                ==> (r matches Err(e) && e@ == (ErrorKind::State, "应用 '"@ + app_name@
                + "' 没有可回滚镜像"@)),
            old(self)@.contains_key(app_name@) && old(self)@[app_name@].previous_image is Some
                && old(self)@[app_name@].previous_container is None ==> (r matches Err(e) && e@ == (
                ErrorKind::State,
                "应用 '"@ + app_name@ + "' 没有可回滚容器"@,
            )),
            r is Err ==> final(self)@ == old(self)@,
            r is Ok <==> (old(self)@.contains_key(app_name@) && old(self)@[app_name@].previous_image is Some
                && old(self)@[app_name@].previous_container is Some),
            r matches Ok((image, container)) ==> {
                &&& old(self)@.contains_key(app_name@)
                &&& old(self)@[app_name@].previous_image == Some(image@)
                &&& old(self)@[app_name@].previous_container == Some(container@)
                &&& final(self)@ == old(self)@.insert(app_name@, rolled_back(old(self)@[app_name@]))
            },
    {
        let mut state = match self.states.get(app_name) {
            Some(s) => s.clone(),
            None => {
                return Err(Error::State(concat3("应用 '", app_name, "' 没有部署状态")));
            },
        };
        let image = match &state.previous_image {
            Some(i) => i.clone(),
            None => {
                return Err(Error::State(concat3("应用 '", app_name, "' 没有可回滚镜像")));
            },
        };
        let container = match &state.previous_container {
            Some(c) => c.clone(),
            None => {
                return Err(Error::State(concat3("应用 '", app_name, "' 没有可回滚容器")));
            },
        };
        let DeploymentState {
            active_image,
            previous_image,
            history_images,
            active_container,
            previous_container,
        } = state;
        let mut swapped = DeploymentState {
            active_image: previous_image,
            previous_image: active_image,
            history_images,
            active_container: previous_container,
            previous_container: active_container,
        };
        swapped.normalize_history();
        self.states.insert(app_name.to_owned(), swapped);
        Ok((image, container))
    }
}


/// Whether byte offset `n` of `s` falls between two characters.
pub open spec fn byte_boundary(s: Seq<char>, n: nat) -> bool
    decreases s.len(),
{
    if n == 0 {
        true
    } else if s.len() == 0 {
        false
    } else {
        utf8_width(s[0]) <= n && byte_boundary(s.drop_first(), (n - utf8_width(s[0])) as nat)
    }
}

/// The longest prefix of `s` that takes at most `n` bytes.
pub open spec fn byte_take(s: Seq<char>, n: nat) -> Seq<char>
    decreases s.len(),
{
    if s.len() == 0 || utf8_width(s[0]) > n {
        seq![]
    } else {
        seq![s[0]] + byte_take(s.drop_first(), (n - utf8_width(s[0])) as nat)
    }
}

/// Splitting off the first character of `s.skip(i)`.
proof fn lemma_skip_first(s: Seq<char>, i: int)
    requires
        0 <= i < s.len(),
    ensures
        s.skip(i)[0] == s[i],
        s.skip(i).drop_first() == s.skip(i + 1),
{
    assert(s.skip(i).drop_first() =~= s.skip(i + 1));
}

/// The versioned image reference of an application built from sources
/// with hash `source_hash`: the name, `:sha-`, and the first twelve bytes
/// of the hash.
pub fn image_reference(app_name: &str, source_hash: &str) -> (r: String)
    requires
        byte_len(source_hash@) <= 12 || byte_boundary(source_hash@, 12),
    ensures
        r@ == app_name@ + ":sha-"@ + byte_take(source_hash@, 12),
{
    let hash = chars_of(source_hash);
    let mut r = app_name.to_owned();
    r.append(":sha-");
    let ghost start = r@;
    let mut remaining: usize = 12;
    let mut i: usize = 0;
    assert(hash@.skip(0) =~= hash@);
    while i < hash.len()
        invariant_except_break
            i <= hash.len(),
            remaining <= 12,
            r@ == start + hash@.take(i as int),
            byte_take(hash@, 12) == hash@.take(i as int) + byte_take(hash@.skip(i as int), remaining as nat),
        ensures
            r@ == start + byte_take(hash@, 12),
        decreases hash.len() - i,
    {
        let w = char_width(hash[i]);
        proof {
            lemma_skip_first(hash@, i as int);
        }
        if w > remaining {
            assert(byte_take(hash@.skip(i as int), remaining as nat) =~= seq![]);
            assert(hash@.take(i as int) + seq![] =~= hash@.take(i as int));
            break;
        }
        push_char(&mut r, hash[i]);
        proof {
            assert(hash@.take(i + 1) =~= hash@.take(i as int).push(hash@[i as int]));
            assert(hash@.take(i + 1) + byte_take(hash@.skip(i + 1), (remaining - w) as nat) =~= hash@.take(
                i as int,
            ) + byte_take(hash@.skip(i as int), remaining as nat));
        }
        remaining = remaining - w;
        i = i + 1;
    }
    proof {
        if i == hash.len() {
            assert(hash@.take(i as int) =~= hash@);
            assert(hash@.skip(i as int) =~= seq![]);
            assert(hash@ + seq![] =~= hash@);
        }
    }
    r
}

/// The last position `e <= end` such that `s` holds `p` just before `e`.
pub open spec fn last_end(s: Seq<char>, p: Seq<char>, end: int) -> Option<int>
    decreases end + 1,
{
    if end < p.len() || end > s.len() {
        None
    } else if s.subrange(end - p.len(), end) == p {
        Some(end)
    } else {
        last_end(s, p, end - 1)
    }
}

/// The marker before the version part of an image reference.
pub open spec fn sha_marker() -> Seq<char> {
    seq!['s', 'h', 'a', '-']
}

/// What follows the last `sha-` of an image reference, or `candidate`.
pub open spec fn image_version(image: Seq<char>) -> Seq<char> {
    match last_end(image, sha_marker(), image.len() as int) {
        Some(e) => image.skip(e),
        None => "candidate"@,
    }
}

/// The container name for a candidate version of an application:
/// the configured name, `--`, and the image's version.
pub open spec fn candidate_container(container_name: Seq<char>, image: Seq<char>) -> Seq<char> {
    container_name + "--"@ + image_version(image)
}

/// The name of the container that runs `image` as a candidate of the
/// application whose container is `container_name`.
pub fn candidate_container_name(container_name: &str, image: &str) -> (r: String)
    ensures
        r@ == candidate_container(container_name@, image@),
{
    let s = chars_of(image);
    let n = s.len();
    let mut end: usize = n;
    let mut found = false;
    while end >= 4 && !found
        invariant
            n == s.len(),
            end <= n,
            found ==> end >= 4 && s@.subrange(end - 4, end as int) == sha_marker(),
            last_end(s@, sha_marker(), n as int) == last_end(s@, sha_marker(), end as int),
        decreases end + (if found { 0int } else { 1int }),
    {
        if s[end - 4] == 's' && s[end - 3] == 'h' && s[end - 2] == 'a' && s[end - 1] == '-' {
            assert(s@.subrange(end - 4, end as int) =~= sha_marker());
            found = true;
        } else {
            assert(s@.subrange(end - 4, end as int) != sha_marker()) by {
                if s@.subrange(end - 4, end as int) == sha_marker() {
                    assert(s@.subrange(end - 4, end as int)[0] == s@[end - 4]);
                    assert(s@.subrange(end - 4, end as int)[1] == s@[end - 3]);
                    assert(s@.subrange(end - 4, end as int)[2] == s@[end - 2]);
                    assert(s@.subrange(end - 4, end as int)[3] == s@[end - 1]);
                }
            }
            end = end - 1;
        }
    }
    let mut r = container_name.to_owned();
    r.append("--");
    if found {
        let mut k: usize = end;
        let ghost start = r@;
        while k < n
            invariant
                n == s.len(),
                end <= k <= n,
                r@ == start + s@.subrange(end as int, k as int),
            decreases n - k,
        {
            push_char(&mut r, s[k]);
            k = k + 1;
            assert(s@.subrange(end as int, k as int) =~= s@.subrange(end as int, k - 1).push(s@[k - 1]));
        }
        assert(s@.subrange(end as int, n as int) =~= s@.skip(end as int));
    } else {
        assert(last_end(s@, sha_marker(), end as int) is None);
        r.append("candidate");
    }
    r
}


/// Why `app` cannot run its active version, if it cannot.
pub open spec fn active_failure(
    app: AppConfigView,
    states: Map<Seq<char>, DeploymentStateView>,
) -> Option<Seq<char>> {
    if !states.contains_key(app.name) {
        Some("应用 '"@ + app.name + "' 没有活动部署状态"@)
    } else if states[app.name].active_image is None {
        Some("应用 '"@ + app.name + "' 没有活动镜像"@)
    } else if states[app.name].active_container is None {
        Some("应用 '"@ + app.name + "' 没有活动容器"@)
    } else {
        None
    }
}

/// The failure of the first application in `apps` that cannot run its
/// active version.
pub open spec fn first_active_failure(
    apps: Seq<AppConfigView>,
    states: Map<Seq<char>, DeploymentStateView>,
) -> Option<Seq<char>>
    decreases apps.len(),
{
    if apps.len() == 0 {
        None
    } else {
        match first_active_failure(apps.drop_last(), states) {
            Some(m) => Some(m),
            None => active_failure(apps.last(), states),
        }
    }
}

/// `app` running in container `container`.
pub open spec fn in_container(app: AppConfigView, container: Seq<char>) -> AppConfigView {
    AppConfigView { container_name: container, ..app }
}

/// Each application of `apps` in the container of its active version.
pub open spec fn active_apps(
    apps: Seq<AppConfigView>,
    states: Map<Seq<char>, DeploymentStateView>,
) -> Seq<AppConfigView> {
    apps.map_values(|a: AppConfigView| in_container(a, states[a.name].active_container->0))
}

/// The active image of each application of `apps`, by name.
pub open spec fn active_images(
    apps: Seq<AppConfigView>,
    states: Map<Seq<char>, DeploymentStateView>,
) -> Map<Seq<char>, Seq<char>> {
    Map::new(|k: Seq<char>| names_app(apps, k), |k: Seq<char>| states[k].active_image->0)
}

/// A failure found in a prefix of the applications is the first failure
/// of all of them.
proof fn lemma_first_failure_extends(
    apps: Seq<AppConfigView>,
    states: Map<Seq<char>, DeploymentStateView>,
    j: int,
)
    requires
        0 <= j <= apps.len(),
        first_active_failure(apps.take(j), states) is Some,
    ensures
        first_active_failure(apps, states) == first_active_failure(apps.take(j), states),
    decreases apps.len(),
{
    if j < apps.len() {
        assert(apps.drop_last().take(j) =~= apps.take(j));
        lemma_first_failure_extends(apps.drop_last(), states, j);
    } else {
        assert(apps.take(j) =~= apps);
    }
}

/// The run configuration of the active versions: every application in
/// the container of its active version, and the active image of each.
/// Refused for the first application that has no state, no active image
/// or no active container.
pub fn active_runtime_apps(apps: &[AppConfig], states: &NamedMap<DeploymentState>) -> (r: Result<
    (Vec<AppConfig>, NamedMap<String>),
    Error,
>)
    ensures
        r is Err <==> first_active_failure(app_views(apps@), states@) is Some,
        r matches Err(e) ==> e@ == (ErrorKind::State, first_active_failure(app_views(apps@), states@)->0),
        r matches Ok((runtime, images)) ==> {
            &&& app_views(runtime@) == active_apps(app_views(apps@), states@)
            &&& images@ == active_images(app_views(apps@), states@)
        },
{
    let ghost av = app_views(apps@);
    let mut runtime: Vec<AppConfig> = Vec::new();
    let mut images: NamedMap<String> = NamedMap::new();
    let mut i: usize = 0;
    while i < apps.len()
        invariant
            i <= apps.len(),
            av == app_views(apps@),
            first_active_failure(av.take(i as int), states@) is None,
            app_views(runtime@) == active_apps(av.take(i as int), states@),
            images@ == active_images(av.take(i as int), states@),
        decreases apps.len() - i,
    {
        let app = &apps[i];
        assert(av[i as int] == app@);
        assert(av.take(i + 1).drop_last() =~= av.take(i as int));
        assert(av.take(i + 1).last() == app@);
        let state = match states.get(app.name.as_str()) {
            Some(s) => s,
            None => {
                proof {
                    lemma_first_failure_extends(av, states@, i + 1);
                }
                return Err(Error::State(concat3("应用 '", app.name.as_str(), "' 没有活动部署状态")));
            },
        };
        let image = match &state.active_image {
            Some(x) => x.clone(),
            None => {
                proof {
                    lemma_first_failure_extends(av, states@, i + 1);
                }
                return Err(Error::State(concat3("应用 '", app.name.as_str(), "' 没有活动镜像")));
            },
        };
        let container = match &state.active_container {
            Some(x) => x.clone(),
            None => {
                proof {
                    lemma_first_failure_extends(av, states@, i + 1);
                }
                return Err(Error::State(concat3("应用 '", app.name.as_str(), "' 没有活动容器")));
            },
        };
        let ghost old_runtime = runtime@;
        let ghost old_images = images@;
        let mut runtime_app = app.duplicate();
        runtime_app.container_name = container;
        images.insert(app.name.clone(), image);
        runtime.push(runtime_app);
        proof {
            let t = av.take(i + 1);
            assert(app_views(runtime@) =~= app_views(old_runtime).push(in_container(app@, states@[app@.name].active_container->0)));
            assert(app_views(runtime@) =~= active_apps(t, states@));
            assert forall|k: Seq<char>| #![auto] names_app(t, k) <==> (names_app(av.take(i as int), k) || k == app@.name) by {
                if names_app(t, k) {
                    let j = choose|j: int| 0 <= j < t.len() && (#[trigger] t[j]).name == k;
                    if j < i {
                        assert(av.take(i as int)[j] == t[j]);
                    }
                }
                if names_app(av.take(i as int), k) {
                    let j = choose|j: int| 0 <= j < i && (#[trigger] av.take(i as int)[j]).name == k;
                    assert(t[j] == av.take(i as int)[j]);
                }
                if k == app@.name {
                    assert(t[i as int] == app@);
                }
            }
            assert(images@ =~= active_images(t, states@));
        }
        i = i + 1;
    }
    assert(av.take(i as int) =~= av);
    Ok((runtime, images))
}


/// Whether the application `name` has an active image and container.
pub open spec fn has_active_version(
    states: Map<Seq<char>, DeploymentStateView>,
    name: Seq<char>,
) -> bool {
    &&& states.contains_key(name)
    &&& states[name].active_image is Some
    &&& states[name].active_container is Some
}

/// How `app` runs while `candidate` is tried in container `container`:
/// the candidate in that container, the others in the container of their
/// active version, where they have one, and unchanged where not.
pub open spec fn with_candidate(
    app: AppConfigView,
    states: Map<Seq<char>, DeploymentStateView>,
    candidate: Seq<char>,
    container: Seq<char>,
) -> AppConfigView {
    if app.name == candidate {
        in_container(app, container)
    } else if has_active_version(states, app.name) {
        in_container(app, states[app.name].active_container->0)
    } else {
        app
    }
}

/// The images while `candidate` is tried with `image`: that image for the
/// candidate, the active image for the applications that have one.
pub open spec fn candidate_images(
    apps: Seq<AppConfigView>,
    states: Map<Seq<char>, DeploymentStateView>,
    candidate: Seq<char>,
    image: Seq<char>,
) -> Map<Seq<char>, Seq<char>> {
    Map::new(
        |k: Seq<char>| names_app(apps, k) && (k == candidate || has_active_version(states, k)),
        |k: Seq<char>| if k == candidate {
            image
        } else {
            states[k].active_image->0
        },
    )
}

/// The run configuration for trying `candidate_image` as the next version
/// of `candidate_app`: the candidate runs in its candidate container, the
/// other applications in the container of their active version, where they
/// have one. Also answers the candidate container's name. Refused when no
/// application is named `candidate_app`.
pub fn runtime_apps_with_candidate(
    apps: &[AppConfig],
    states: &NamedMap<DeploymentState>,
    candidate_app: &str,
    candidate_image: &str,
) -> (r: Result<(Vec<AppConfig>, NamedMap<String>, String), Error>)
    ensures
        r is Err <==> first_named(app_views(apps@), candidate_app@) is None,
        r matches Err(e) ==> e@ == (ErrorKind::State, "未找到应用 '"@ + candidate_app@ + "'"@),
        r matches Ok((runtime, images, container)) ==> {
            let av = app_views(apps@);
            let configured = av[first_named(av, candidate_app@)->0];
            &&& container@ == candidate_container(configured.container_name, candidate_image@)
            &&& app_views(runtime@) == av.map_values(
                |a: AppConfigView| with_candidate(a, states@, candidate_app@, container@),
            )
            &&& images@ == candidate_images(av, states@, candidate_app@, candidate_image@)
        },
{
    let ghost av = app_views(apps@);
    let found = find_app(apps, candidate_app);
    let configured = match found {
        Some(j) => &apps[j],
        None => {
            return Err(Error::State(concat3("未找到应用 '", candidate_app, "'")));
        },
    };
    let container = candidate_container_name(configured.container_name.as_str(), candidate_image);
    let ghost target = av.map_values(
        |a: AppConfigView| with_candidate(a, states@, candidate_app@, container@),
    );
    let mut runtime: Vec<AppConfig> = Vec::new();
    let mut images: NamedMap<String> = NamedMap::new();
    let mut i: usize = 0;
    while i < apps.len()
        invariant
            i <= apps.len(),
            av == app_views(apps@),
            target == av.map_values(
                |a: AppConfigView| with_candidate(a, states@, candidate_app@, container@),
            ),
            app_views(runtime@) == target.take(i as int),
            images@ == candidate_images(av.take(i as int), states@, candidate_app@, candidate_image@),
        decreases apps.len() - i,
    {
        let app = &apps[i];
        assert(av[i as int] == app@);
        let ghost old_runtime = runtime@;
        let ghost old_images = images@;
        let mut run = app.duplicate();
        if str_eq(app.name.as_str(), candidate_app) {
            run.container_name = container.clone();
            images.insert(app.name.clone(), candidate_image.to_owned());
        } else {
            match states.get(app.name.as_str()) {
                Some(state) => {
                    match (&state.active_image, &state.active_container) {
                        (Some(image), Some(c)) => {
                            run.container_name = c.clone();
                            images.insert(app.name.clone(), image.clone());
                        },
                        _ => {},
                    }
                },
                None => {},
            }
        }
        runtime.push(run);
        proof {
            let t = av.take(i + 1);
            let p = av.take(i as int);
            assert(app_views(runtime@) =~= app_views(old_runtime).push(target[i as int]));
            assert(target.take(i + 1) =~= target.take(i as int).push(target[i as int]));
            assert forall|k: Seq<char>| #![auto] names_app(t, k) <==> (names_app(p, k) || k == app@.name) by {
                if names_app(t, k) {
                    let j = choose|j: int| 0 <= j < t.len() && (#[trigger] t[j]).name == k;
                    if j < i {
                        assert(p[j] == t[j]);
                    }
                }
                if names_app(p, k) {
                    let j = choose|j: int| 0 <= j < i && (#[trigger] p[j]).name == k;
                    assert(t[j] == p[j]);
                }
                if k == app@.name {
                    assert(t[i as int] == app@);
                }
            }
            assert(images@ =~= candidate_images(t, states@, candidate_app@, candidate_image@));
        }
        i = i + 1;
    }
    assert(av.take(i as int) =~= av);
    assert(target.take(i as int) =~= target);
    Ok((runtime, images, container))
}


/// The states after `migrate_legacy` for an application named `name` in
/// container `container`, and whether they changed.
pub open spec fn legacy_step(
    states: Map<Seq<char>, DeploymentStateView>,
    name: Seq<char>,
    container: Seq<char>,
    legacy_image_exists: bool,
) -> (Map<Seq<char>, DeploymentStateView>, bool) {
    let s = state_or_empty(states, name);
    if legacy_image_exists && s.active_image is None && s.active_container is None {
        (
            states.insert(
                name,
                DeploymentStateView {
                    active_image: Some(legacy_image(name)),
                    active_container: Some(container),
                    ..s
                },
            ),
            true,
        )
    } else {
        (states, false)
    }
}

/// `legacy_step` applied to each application in order, and whether any
/// step changed the states.
pub open spec fn legacy_migration(
    states: Map<Seq<char>, DeploymentStateView>,
    apps: Seq<AppConfigView>,
    legacy_images_exist: Seq<bool>,
) -> (Map<Seq<char>, DeploymentStateView>, bool)
    decreases apps.len(),
{
    if apps.len() == 0 {
        (states, false)
    } else {
        let n = apps.len() - 1;
        let before = legacy_migration(states, apps.drop_last(), legacy_images_exist.take(n));
        let step = legacy_step(before.0, apps.last().name, apps.last().container_name, legacy_images_exist[n]);
        (step.0, before.1 || step.1)
    }
}

/// Registers, for each application, an installation from before versioned
/// images (see `DeploymentStore::migrate_legacy`); `legacy_images_exist[i]`
/// tells whether the image `<name>:latest` of `apps[i]` exists. Answers the
/// store and whether it changed, in which case it is to be saved.
pub fn load_deployments_with_legacy_migration(
    store: DeploymentStore,
    apps: &[AppConfig],
    legacy_images_exist: &[bool],
) -> (r: (DeploymentStore, bool))
    requires
        legacy_images_exist@.len() == apps@.len(),
    ensures
        r.0.path_view() == store.path_view(),
        (r.0@, r.1) == legacy_migration(store@, app_views(apps@), legacy_images_exist@),
{
    let ghost av = app_views(apps@);
    let mut store = store;
    let ghost initial = store@;
    let ghost path = store.path_view();
    let mut changed = false;
    let mut i: usize = 0;
    while i < apps.len()
        invariant
            i <= apps.len(),
            legacy_images_exist@.len() == apps@.len(),
            av == app_views(apps@),
            store.path_view() == path,
            (store@, changed) == legacy_migration(
                initial,
                av.take(i as int),
                legacy_images_exist@.take(i as int),
            ),
        decreases apps.len() - i,
    {
        assert(av.take(i + 1).drop_last() =~= av.take(i as int));
        assert(legacy_images_exist@.take(i + 1).take(i as int) =~= legacy_images_exist@.take(i as int));
        assert(av.take(i + 1).last() == apps@[i as int]@);
        let step = store.migrate_legacy(
            apps[i].name.as_str(),
            apps[i].container_name.as_str(),
            legacy_images_exist[i],
        );
        changed = changed || step;
        i = i + 1;
    }
    assert(av.take(i as int) =~= av);
    assert(legacy_images_exist@.take(i as int) =~= legacy_images_exist@);
    (store, changed)
}

/// The container that runs `app_name` now, per `states`.
pub open spec fn active_container_of(states: Map<Seq<char>, DeploymentStateView>, app_name: Seq<char>) -> Option<
    Seq<char>,
> {
    state_or_empty(states, app_name).active_container
}

/// The containers of switching `app_name`, whose configured container is
/// `container_name`, to `image`: the candidate container that will run
/// the image, and the container that runs the application now. Refused
/// when the candidate container is the one that runs now, since the image
/// is then already active.
pub fn plan_switch(store: &DeploymentStore, app_name: &str, container_name: &str, image: &str) -> (r: Result<
    (String, Option<String>),
    Error,
>)
    ensures
        r is Err <==> active_container_of(store@, app_name@) == Some(candidate_container(container_name@, image@)),
        r matches Err(e) ==> e@ == (
            ErrorKind::State,
            "镜像 '"@ + image@ + "' 已是应用 '"@ + app_name@ + "' 的活动版本"@,
        ),
        r matches Ok((candidate, old)) ==> candidate@ == candidate_container(container_name@, image@)
            && opt_view(old) == active_container_of(store@, app_name@),
{
    let candidate = candidate_container_name(container_name, image);
    let old = match store.state(app_name) {
        Some(state) => clone_opt(&state.active_container),
        None => None,
    };
    if opt_is(&old, candidate.as_str()) {
        return Err(Error::State(concat5("镜像 '", image, "' 已是应用 '", app_name, "' 的活动版本")));
    }
    Ok((candidate, old))
}

/// The file that keeps the deployment states beside the state file.
pub fn deployment_state_path(state_file_path: &str) -> (r: String)
    ensures
        r@ == state_file_path@ + ".deployments.yml"@,
{
    let mut r = state_file_path.to_owned();
    r.append(".deployments.yml");
    r
}

} // verus!

verus! {

/// What the normalized history holds: the images of `h` other than the
/// active and previous ones, each once.
proof fn lemma_kept_history(h: Seq<Seq<char>>, active: Option<Seq<char>>, previous: Option<Seq<char>>)
    ensures
        kept_history(h, active, previous).no_duplicates(),
        forall|x: Seq<char>| #[trigger]
            kept_history(h, active, previous).contains(x) <==> (h.contains(x) && active != Some(x)
                && previous != Some(x)),
    decreases h.len(),
{
    if h.len() > 0 {
        let k = kept_history(h.drop_last(), active, previous);
        lemma_kept_history(h.drop_last(), active, previous);
        assert forall|x: Seq<char>| #[trigger] h.contains(x) <==> (h.drop_last().contains(x) || x == h.last()) by {
            if h.contains(x) {
                let i = choose|i: int| 0 <= i < h.len() && h[i] == x;
                if i < h.len() - 1 {
                    assert(h.drop_last()[i] == x);
                }
            }
            if h.drop_last().contains(x) {
                let i = choose|i: int| 0 <= i < h.len() - 1 && h.drop_last()[i] == x;
                assert(h[i] == x);
            }
            if x == h.last() {
                assert(h[h.len() - 1] == x);
            }
        }
        let x = h.last();
        if !(active == Some(x) || previous == Some(x) || k.contains(x)) {
            assert forall|y: Seq<char>| #[trigger] k.push(x).contains(y) <==> (k.contains(y) || y == x) by {
                if k.push(x).contains(y) {
                    let i = choose|i: int| 0 <= i < k.len() + 1 && k.push(x)[i] == y;
                    if i < k.len() {
                        assert(k[i] == y);
                    }
                }
                if k.contains(y) {
                    let i = choose|i: int| 0 <= i < k.len() && k[i] == y;
                    assert(k.push(x)[i] == y);
                }
                if y == x {
                    assert(k.push(x)[k.len() as int] == y);
                }
            }
            assert forall|i: int, j: int| 0 <= i < j < k.len() + 1 implies k.push(x)[i] != k.push(x)[j] by {
                if j == k.len() {
                    assert(k.push(x)[i] == k[i]);
                }
            }
        }
    }
}

/// What `without` leaves: the elements of `h` other than `x`.
proof fn lemma_without(h: Seq<Seq<char>>, x: Seq<char>)
    ensures
        forall|y: Seq<char>| #[trigger] without(h, x).contains(y) <==> (h.contains(y) && y != x),
    decreases h.len(),
{
    if h.len() > 0 {
        lemma_without(h.drop_last(), x);
        let r = without(h.drop_last(), x);
        assert forall|y: Seq<char>| #[trigger] h.contains(y) <==> (h.drop_last().contains(y) || y == h.last()) by {
            if h.contains(y) {
                let i = choose|i: int| 0 <= i < h.len() && h[i] == y;
                if i < h.len() - 1 {
                    assert(h.drop_last()[i] == y);
                }
            }
            if h.drop_last().contains(y) {
                let i = choose|i: int| 0 <= i < h.len() - 1 && h.drop_last()[i] == y;
                assert(h[i] == y);
            }
            if y == h.last() {
                assert(h[h.len() - 1] == y);
            }
        }
        if h.last() != x {
            assert forall|y: Seq<char>| #[trigger] r.push(h.last()).contains(y) <==> (r.contains(y) || y == h.last()) by {
                if r.push(h.last()).contains(y) {
                    let i = choose|i: int| 0 <= i < r.len() + 1 && r.push(h.last())[i] == y;
                    if i < r.len() {
                        assert(r[i] == y);
                    }
                }
                if r.contains(y) {
                    let i = choose|i: int| 0 <= i < r.len() && r[i] == y;
                    assert(r.push(h.last())[i] == y);
                }
                if y == h.last() {
                    assert(r.push(h.last())[r.len() as int] == y);
                }
            }
        }
    }
}

/// Normalizing a history that is already clean leaves it as it is.
proof fn lemma_kept_history_clean(h: Seq<Seq<char>>, active: Option<Seq<char>>, previous: Option<Seq<char>>)
    requires
        h.no_duplicates(),
        forall|i: int| 0 <= i < h.len() ==> active != Some(#[trigger] h[i]) && previous != Some(h[i]),
    ensures
        kept_history(h, active, previous) == h,
    decreases h.len(),
{
    if h.len() > 0 {
        let d = h.drop_last();
        assert forall|i: int| 0 <= i < d.len() implies active != Some(#[trigger] d[i]) && previous != Some(d[i]) by {
            assert(d[i] == h[i]);
        }
        assert forall|i: int, j: int| 0 <= i < j < d.len() implies d[i] != d[j] by {
            assert(d[i] == h[i] && d[j] == h[j]);
        }
        lemma_kept_history_clean(d, active, previous);
        assert(!d.contains(h.last())) by {
            if d.contains(h.last()) {
                let i = choose|i: int| 0 <= i < d.len() && d[i] == h.last();
                assert(h[i] == h[h.len() - 1]);
            }
        }
        assert(active != Some(h[h.len() - 1]));
        assert(d.push(h.last()) =~= h);
    }
}

/// Normalizing does not depend on which of the two deployed images is
/// active and which previous.
proof fn lemma_kept_history_symmetric(h: Seq<Seq<char>>, a: Option<Seq<char>>, p: Option<Seq<char>>)
    ensures
        kept_history(h, a, p) == kept_history(h, p, a),
    decreases h.len(),
{
    if h.len() > 0 {
        lemma_kept_history_symmetric(h.drop_last(), a, p);
    }
}

/// After normalization the history holds no repeats, and neither the
/// active nor the previous image.
pub proof fn law_normalized_history_is_clean(s: DeploymentStateView)
    ensures
        history_clean(normalized(s)),
{
    lemma_kept_history(s.history_images, s.active_image, s.previous_image);
    let k = normalized(s).history_images;
    assert forall|i: int| 0 <= i < k.len() implies s.active_image != Some(#[trigger] k[i])
        && s.previous_image != Some(k[i]) by {
        assert(k.contains(k[i]));
    }
}

/// Every state that `activate` or `rollback` leaves has a clean history.
pub proof fn law_transitions_keep_history_clean(
    s: DeploymentStateView,
    image: Seq<char>,
    container: Seq<char>,
)
    ensures
        history_clean(activated(s, image, container)),
        history_clean(rolled_back(s)),
{
    let h1 = without(normalized(s).history_images, image);
    let h2 = match s.previous_image {
        Some(p) => if p != image {
            seq![p] + h1
        } else {
            h1
        },
        None => h1,
    };
    law_normalized_history_is_clean(
        DeploymentStateView {
            active_image: Some(image),
            previous_image: s.active_image,
            history_images: h2,
            active_container: Some(container),
            previous_container: s.active_container,
        },
    );
    law_normalized_history_is_clean(
        DeploymentStateView {
            active_image: s.previous_image,
            previous_image: s.active_image,
            history_images: s.history_images,
            active_container: s.previous_container,
            previous_container: s.active_container,
        },
    );
}

/// A rollback right after an activation returns to the version that was
/// active before it: it answers that image and container, and makes them
/// active again, with the activated version as the one to roll back to.
pub proof fn law_rollback_undoes_activate(s: DeploymentStateView, image: Seq<char>, container: Seq<char>)
    requires
        s.active_image is Some,
        s.active_container is Some,
        s.active_image != Some(image),
    ensures
        activated(s, image, container).previous_image == s.active_image,
        activated(s, image, container).previous_container == s.active_container,
        rolled_back(activated(s, image, container)).active_image == s.active_image,
        rolled_back(activated(s, image, container)).active_container == s.active_container,
        rolled_back(activated(s, image, container)).previous_image == Some(image),
        rolled_back(activated(s, image, container)).previous_container == Some(container),
{
}

/// Rolling back twice returns to the state rolled back from, with its
/// history normalized.
pub proof fn law_rollback_twice(s: DeploymentStateView)
    ensures
        rolled_back(rolled_back(s)) == normalized(s),
{
    let once = rolled_back(s);
    lemma_kept_history_symmetric(s.history_images, s.active_image, s.previous_image);
    law_normalized_history_is_clean(s);
    let k = normalized(s).history_images;
    lemma_kept_history_clean(k, s.active_image, s.previous_image);
    assert(once.history_images == k);
    assert(rolled_back(once).history_images == kept_history(k, s.active_image, s.previous_image));
}

/// Two rollbacks of an application that has an active and a previous
/// version both succeed (the `rollback` contract owes success when a
/// previous image and container exist): the first one leaves the versions
/// swapped, so the second finds the first's active version as previous,
/// answers the version that was active at the start, and leaves the store
/// as it was, with that application's history normalized.
pub proof fn law_two_rollbacks_restore(states: Map<Seq<char>, DeploymentStateView>, name: Seq<char>)
    requires
        states.contains_key(name),
        states[name].active_image is Some,
        states[name].active_container is Some,
        states[name].previous_image is Some,
        states[name].previous_container is Some,
    ensures
        ({
            let s = states[name];
            let once = states.insert(name, rolled_back(s));
            &&& once.contains_key(name)
            &&& once[name].previous_image == s.active_image
            &&& once[name].previous_container == s.active_container
            &&& once.insert(name, rolled_back(once[name])) == states.insert(name, normalized(s))
        }),
{
    law_rollback_twice(states[name]);
    let once = states.insert(name, rolled_back(states[name]));
    assert(once.insert(name, rolled_back(once[name])) =~= states.insert(name, normalized(states[name])));
}

/// Activating an image forgets none of the images the state knew: the
/// known images afterwards are those before, and the activated one.
pub proof fn law_activate_keeps_known_images(s: DeploymentStateView, image: Seq<char>, container: Seq<char>)
    ensures
        known_images(activated(s, image, container)) == known_images(s).insert(image),
{
    let n = normalized(s).history_images;
    lemma_kept_history(s.history_images, s.active_image, s.previous_image);
    let h1 = without(n, image);
    lemma_without(n, image);
    let h2 = match s.previous_image {
        Some(p) => if p != image {
            seq![p] + h1
        } else {
            h1
        },
        None => h1,
    };
    assert forall|x: Seq<char>| #[trigger] h2.contains(x) <==> (h1.contains(x) || (s.previous_image
        == Some(x) && x != image)) by {
        if s.previous_image is Some && s.previous_image->0 != image {
            let p = s.previous_image->0;
            if h2.contains(x) {
                let i = choose|i: int| 0 <= i < h2.len() && h2[i] == x;
                if i > 0 {
                    assert(h1[i - 1] == x);
                }
            }
            if h1.contains(x) {
                let i = choose|i: int| 0 <= i < h1.len() && h1[i] == x;
                assert(h2[i + 1] == x);
            }
            if x == p {
                assert(h2[0] == x);
            }
        }
    }
    lemma_kept_history(h2, Some(image), s.active_image);
    let t = activated(s, image, container);
    assert forall|x: Seq<char>| #[trigger] known_images(t).contains(x) <==> known_images(s).insert(image).contains(x) by {
        assert(s.history_images.to_set().contains(x) <==> s.history_images.contains(x));
        assert(t.history_images.to_set().contains(x) <==> t.history_images.contains(x));
    }
    assert(known_images(t) =~= known_images(s).insert(image));
}

/// Registering a legacy installation twice changes nothing the second
/// time.
pub proof fn law_legacy_migration_once(
    states: Map<Seq<char>, DeploymentStateView>,
    name: Seq<char>,
    container: Seq<char>,
    legacy_image_exists: bool,
)
    ensures
        legacy_step(
            legacy_step(states, name, container, legacy_image_exists).0,
            name,
            container,
            legacy_image_exists,
        ) == (legacy_step(states, name, container, legacy_image_exists).0, false),
{
}

} // verus!
