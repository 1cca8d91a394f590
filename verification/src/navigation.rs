//! Navigation system: stack, modal and tab screens, and deep linking.
//!
//! The navigator is a state machine: each action changes the screen stacks
//! and yields the events that the renderer reacts to.

use vstd::prelude::*;
use std::collections::HashMap;
use crate::platform::NativeHandle;
use crate::text::{str_eq, starts_with_char};
use crate::tree::NodeId;

verus! {

/// A route definition (registered at app startup).
#[derive(Debug, Clone)]
pub struct RouteDefinition {
    pub name: String,
    /// URL path for deep linking, e.g. "/profile/:id".
    pub path: Option<String>,
    pub presentation: Presentation,
    pub options: RouteOptions,
}

/// How a screen is presented.
#[derive(Debug, Clone, Copy, PartialEq, Eq, Structural)]
pub enum Presentation {
    /// Push onto the stack.
    Push,
    /// Present as a modal.
    Modal,
    /// Replace the current screen.
    Replace,
    /// Tab screen (managed by a tab bar).
    Tab,
}

#[derive(Debug, Clone, Default)]
pub struct RouteOptions {
    pub title: Option<String>,
    pub header_shown: bool,
    pub gesture_enabled: bool,
    pub animation: TransitionAnimation,
}

#[derive(Debug, Clone, Copy, Default)]
pub enum TransitionAnimation {
    /// Use the native platform animation.
    #[default]
    Platform,
    SlideRight,
    SlideUp,
    Fade,
    /// No transition animation.
    NoAnimation,
}

/// An active screen in the navigation stack.
#[derive(Debug, Clone)]
pub struct Screen {
    pub id: ScreenId,
    pub route_name: String,
    pub params: HashMap<String, String>,
    pub presentation: Presentation,
    /// Root shadow tree node for this screen.
    pub root_node: Option<NodeId>,
    pub native_handle: Option<NativeHandle>,
}

#[derive(Debug, Clone, Copy, PartialEq, Eq, Hash, Structural)]
pub struct ScreenId(pub u64);

/// Navigation action (sent from React or a deep link resolver).
#[derive(Debug, Clone)]
pub enum NavigationAction {
    Push { route: String, params: HashMap<String, String> },
    Pop,
    PopToRoot,
    Replace { route: String, params: HashMap<String, String> },
    PresentModal { route: String, params: HashMap<String, String> },
    DismissModal,
    SwitchTab { index: usize },
    DeepLink { url: String },
    /// Platform back button.
    GoBack,
}

/// Navigation event (sent to React for rendering decisions).
#[derive(Debug, Clone)]
pub enum NavigationEvent {
    /// A new screen should be rendered.
    ScreenMounted { screen_id: ScreenId, route_name: String, params: HashMap<String, String> },
    /// A screen is being removed.
    ScreenUnmounting { screen_id: ScreenId },
    /// The active screen changed (tab switch).
    ActiveScreenChanged { screen_id: ScreenId },
    /// Navigation state changed.
    StateChanged { stack_depth: usize, active_route: String },
}

// ── Path matching ──────────────────────────────────────────────────────

/// Scans `s` left to right, splitting at '/': the completed non-empty
/// segments, and the segment still being read.
pub open spec fn scan_segments(s: Seq<char>) -> (Seq<Seq<char>>, Seq<char>)
    decreases s.len(),
{
    if s.len() == 0 {
        (Seq::empty(), Seq::empty())
    } else {
        let prev = scan_segments(s.drop_last());
        if s.last() == '/' {
            if prev.1.len() > 0 {
                (prev.0.push(prev.1), Seq::empty())
            } else {
                (prev.0, Seq::empty())
            }
        } else {
            (prev.0, prev.1.push(s.last()))
        }
    }
}

/// The non-empty '/'-separated segments of `s`, in order.
pub open spec fn path_segments(s: Seq<char>) -> Seq<Seq<char>> {
    let st = scan_segments(s);
    if st.1.len() > 0 {
        st.0.push(st.1)
    } else {
        st.0
    }
}

/// `p` up to (not including) its first '?'.
pub open spec fn strip_query(p: Seq<char>) -> Seq<char>
    decreases p.len(),
{
    if p.len() == 0 {
        p
    } else if p[0] == '?' {
        Seq::empty()
    } else {
        seq![p[0]] + strip_query(p.drop_first())
    }
}

/// The segments of a URL, each with its query string removed.
pub open spec fn url_parts(url: Seq<char>) -> Seq<Seq<char>> {
    path_segments(url).map_values(|p: Seq<char>| strip_query(p))
}

/// A pattern segment is a parameter when it starts with ':'.
pub open spec fn is_param_segment(p: Seq<char>) -> bool {
    p.len() > 0 && p[0] == ':'
}

pub open spec fn segments_match(pat: Seq<Seq<char>>, parts: Seq<Seq<char>>) -> bool {
    &&& pat.len() == parts.len()
    &&& forall|i: int|
        0 <= i < pat.len() ==> is_param_segment(#[trigger] pat[i]) || pat[i] == parts[i]
}

/// The parameters bound by matching `pat` against `parts`, position by position;
/// a later binding of the same name replaces an earlier one.
pub open spec fn bound_params(pat: Seq<Seq<char>>, parts: Seq<Seq<char>>) -> Map<Seq<char>, Seq<char>>
    decreases pat.len(),
{
    if pat.len() == 0 || parts.len() == 0 {
        Map::empty()
    } else {
        let m = bound_params(pat.drop_last(), parts.drop_last());
        if is_param_segment(pat.last()) {
            m.insert(pat.last().drop_first(), parts.last())
        } else {
            m
        }
    }
}

/// The parameters of `url` under `pattern`, or `None` when they do not match.
pub open spec fn spec_match_path(pattern: Seq<char>, url: Seq<char>) -> Option<
    Map<Seq<char>, Seq<char>>,
> {
    let pat = path_segments(pattern);
    let parts = url_parts(url);
    if segments_match(pat, parts) {
        Some(bound_params(pat, parts))
    } else {
        None
    }
}

/// `key` is the name of a parameter segment among the first `n` of `pat`.
pub open spec fn names_param(pat: Seq<Seq<char>>, n: int, key: Seq<char>) -> bool {
    exists|i: int| 0 <= i < n && is_param_segment(#[trigger] pat[i]) && pat[i].drop_first() == key
}

/// Position `i` is the last parameter segment of `pat` with its name.
pub open spec fn last_binding(pat: Seq<Seq<char>>, i: int) -> bool {
    &&& 0 <= i < pat.len()
    &&& is_param_segment(pat[i])
    &&& forall|j: int| i < j < pat.len() && is_param_segment(#[trigger] pat[j]) ==> pat[j].drop_first()
        != pat[i].drop_first()
}

proof fn lemma_bound_params(pat: Seq<Seq<char>>, parts: Seq<Seq<char>>)
    requires
        pat.len() == parts.len(),
    ensures
        forall|key: Seq<char>| #[trigger] bound_params(pat, parts).contains_key(key) <==> names_param(
            pat,
            pat.len() as int,
            key,
        ),
        forall|i: int| #[trigger] last_binding(pat, i) ==> bound_params(pat, parts)[pat[i].drop_first()] == parts[i],
    decreases pat.len(),
{
    if pat.len() > 0 {
        let pp = pat.drop_last();
        let qq = parts.drop_last();
        lemma_bound_params(pp, qq);
        let n = pat.len() as int;
        let m = bound_params(pat, parts);
        assert(m == if is_param_segment(pat.last()) {
            bound_params(pp, qq).insert(pat.last().drop_first(), parts.last())
        } else {
            bound_params(pp, qq)
        });
        assert(pat.last() == pat[n - 1]);
        assert forall|key: Seq<char>| #[trigger] m.contains_key(key) <==> names_param(pat, n, key) by {
            if is_param_segment(pat[n - 1]) && pat[n - 1].drop_first() == key {
                assert(names_param(pat, n, key));
            }
            if names_param(pp, n - 1, key) {
                let i = choose|i: int| 0 <= i < n - 1 && is_param_segment(#[trigger] pp[i]) && pp[i].drop_first() == key;
                assert(pat[i] == pp[i]);
            }
            if names_param(pat, n, key) {
                let i = choose|i: int| 0 <= i < n && is_param_segment(#[trigger] pat[i]) && pat[i].drop_first() == key;
                if i < n - 1 {
                    assert(pp[i] == pat[i]);
                    assert(names_param(pp, n - 1, key));
                }
            }
        }
        assert forall|i: int| #[trigger] last_binding(pat, i) implies m[pat[i].drop_first()] == parts[i] by {
            if i < n - 1 {
                assert(pp[i] == pat[i]);
                assert forall|j: int| i < j < pp.len() && is_param_segment(#[trigger] pp[j]) implies pp[j].drop_first()
                    != pp[i].drop_first() by {
                    assert(pp[j] == pat[j]);
                }
                assert(last_binding(pp, i));
            }
        }
    }
}

/// Path matching, segment by segment. With `P` the non-empty '/'-separated
/// segments of the pattern and `U` those of the URL, each cut at its first
/// '?': the URL matches exactly when `P` and `U` are equally long and every
/// segment of `P` that does not start with ':' equals the segment of `U` at
/// its place. The parameters then bound are the names (after the ':') of the
/// parameter segments of `P` and nothing else, and each name is bound to the
/// segment of `U` at the last parameter segment with that name.
pub proof fn lemma_match_path_segments(pattern: Seq<char>, url: Seq<char>)
    ensures
        ({
            let pat = path_segments(pattern);
            let parts = url_parts(url);
            &&& spec_match_path(pattern, url) is Some <==> (pat.len() == parts.len() && forall|i: int|
                0 <= i < pat.len() && !is_param_segment(#[trigger] pat[i]) ==> pat[i] == parts[i])
            &&& spec_match_path(pattern, url) matches Some(m) ==> {
                &&& forall|key: Seq<char>| #[trigger] m.contains_key(key) <==> names_param(pat, pat.len() as int, key)
                &&& forall|i: int| #[trigger] last_binding(pat, i) ==> m[pat[i].drop_first()] == parts[i]
            }
        }),
{
    let pat = path_segments(pattern);
    let parts = url_parts(url);
    if pat.len() == parts.len() {
        lemma_bound_params(pat, parts);
    }
}

/// `HashMap::insert` on a map keyed by `String`. std documents that the key then
/// maps to the new value and that all other entries stay as they were.
#[verifier::external_body]
fn insert_param(params: &mut HashMap<String, String>, key: String, value: String)
    ensures
        final(params).deep_view() == old(params).deep_view().insert(key@, value@),
{
    params.insert(key, value);
}

fn empty_params() -> (m: HashMap<String, String>)
    ensures
        m.deep_view() == Map::<Seq<char>, Seq<char>>::empty(),
{
    let m: HashMap<String, String> = HashMap::new();
    proof {
        vstd::std_specs::hash::lemma_hashmap_deepview_dom(m);
        assert(m.deep_view().dom() =~= Set::<Seq<char>>::empty());
        assert(m.deep_view() =~= Map::<Seq<char>, Seq<char>>::empty());
    }
    m
}

fn split_segments(s: &str) -> (v: Vec<String>)
    ensures
        v@.map_values(|x: String| x@) == path_segments(s@),
{
    let n = s.unicode_len();
    let mut out: Vec<String> = Vec::new();
    let mut start: usize = 0;
    let mut i: usize = 0;
    assert(s@.take(0) =~= Seq::<char>::empty());
    assert(out@.map_values(|x: String| x@) =~= Seq::<Seq<char>>::empty());
    while i < n
        invariant
            n == s@.len(),
            start <= i <= n,
            scan_segments(s@.take(i as int)).0 == out@.map_values(|x: String| x@),
            scan_segments(s@.take(i as int)).1 == s@.subrange(start as int, i as int),
        decreases n - i,
    {
        let c = s.get_char(i);
        let ghost prev = scan_segments(s@.take(i as int));
        assert(s@.take(i + 1).drop_last() =~= s@.take(i as int));
        assert(s@.take(i + 1).last() == c);
        if c == '/' {
            if start < i {
                let seg = s.substring_char(start, i);
                let seg_string = String::from_str(seg);
                let ghost before = out@;
                out.push(seg_string);
                assert(out@.map_values(|x: String| x@) =~= before.map_values(|x: String| x@).push(
                    s@.subrange(start as int, i as int),
                ));
            }
            start = i + 1;
        } else {
            assert(s@.subrange(start as int, i + 1) =~= s@.subrange(start as int, i as int).push(
                c,
            ));
        }
        i = i + 1;
    }
    assert(s@.take(n as int) =~= s@);
    if start < n {
        let seg = s.substring_char(start, n);
        let seg_string = String::from_str(seg);
        let ghost before = out@;
        out.push(seg_string);
        assert(out@.map_values(|x: String| x@) =~= before.map_values(|x: String| x@).push(
            s@.subrange(start as int, n as int),
        ));
    }
    out
}

proof fn lemma_strip_query(p: Seq<char>, k: int)
    requires
        0 <= k <= p.len(),
        forall|j: int| 0 <= j < k ==> p[j] != '?',
        k == p.len() || p[k] == '?',
    ensures
        strip_query(p) == p.take(k),
    decreases k,
{
    if k == 0 {
        if p.len() == 0 {
            assert(p.take(0) =~= p);
        } else {
            assert(p.take(0) =~= Seq::<char>::empty());
        }
    } else {
        let rest = p.drop_first();
        assert forall|j: int| 0 <= j < k - 1 implies rest[j] != '?' by {
            assert(rest[j] == p[j + 1]);
        }
        lemma_strip_query(rest, k - 1);
        assert(p.take(k) =~= seq![p[0]] + rest.take(k - 1));
    }
}

fn strip_query_string(p: &str) -> (r: String)
    ensures
        r@ == strip_query(p@),
{
    let n = p.unicode_len();
    let mut k: usize = 0;
    while k < n
        invariant
            n == p@.len(),
            k <= n,
            forall|j: int| 0 <= j < k ==> p@[j] != '?',
        ensures
            k <= n,
            forall|j: int| 0 <= j < k ==> p@[j] != '?',
            k == n || p@[k as int] == '?',
        decreases n - k,
    {
        if p.get_char(k) == '?' {
            break;
        }
        k = k + 1;
    }
    proof {
        lemma_strip_query(p@, k as int);
    }
    String::from_str(p.substring_char(0, k))
}

/// Simple path pattern matching.
/// Pattern "/profile/:id" matches URL "/profile/123", binding {"id": "123"}.
pub fn match_path(pattern: &str, url: &str) -> (res: Option<HashMap<String, String>>)
    ensures
        res is Some <==> spec_match_path(pattern@, url@) is Some,
        res matches Some(m) ==> m.deep_view() == spec_match_path(pattern@, url@)->0,
{
    let pattern_parts = split_segments(pattern);
    let raw_parts = split_segments(url);
    let ghost pat = path_segments(pattern@);
    let ghost parts = url_parts(url@);
    let mut url_parts_v: Vec<String> = Vec::new();
    let mut j: usize = 0;
    while j < raw_parts.len()
        invariant
            j <= raw_parts@.len(),
            raw_parts@.map_values(|x: String| x@) == path_segments(url@),
            parts == url_parts(url@),
            parts.len() == raw_parts@.len(),
            url_parts_v@.len() == j,
            forall|q: int| 0 <= q < j ==> #[trigger] url_parts_v@[q]@ == parts[q],
        decreases raw_parts@.len() - j,
    {
        let stripped = strip_query_string(raw_parts[j].as_str());
        assert(raw_parts@.map_values(|x: String| x@)[j as int] == raw_parts@[j as int]@);
        assert(parts[j as int] == strip_query(path_segments(url@)[j as int]));
        let ghost before = url_parts_v@;
        url_parts_v.push(stripped);
        assert forall|q: int| 0 <= q < j + 1 implies #[trigger] url_parts_v@[q]@ == parts[q] by {
            if q < j {
                assert(url_parts_v@[q] == before[q]);
            }
        }
        j = j + 1;
    }
    assert(pat.len() == pattern_parts@.len());
    if pattern_parts.len() != url_parts_v.len() {
        assert(!segments_match(pat, parts));
        return None;
    }
    let mut params = empty_params();
    let mut i: usize = 0;
    assert(pat.take(0) =~= Seq::<Seq<char>>::empty());
    while i < pattern_parts.len()
        invariant
            pattern_parts@.map_values(|x: String| x@) == pat,
            pat == path_segments(pattern@),
            parts == url_parts(url@),
            pat.len() == parts.len(),
            url_parts_v@.len() == parts.len(),
            forall|q: int| 0 <= q < parts.len() ==> #[trigger] url_parts_v@[q]@ == parts[q],
            i <= pat.len(),
            forall|q: int| 0 <= q < i ==> is_param_segment(#[trigger] pat[q]) || pat[q] == parts[q],
            params.deep_view() == bound_params(pat.take(i as int), parts.take(i as int)),
        decreases pat.len() - i,
    {
        let pattern_part = pattern_parts[i].as_str();
        let url_part = url_parts_v[i].as_str();
        assert(pattern_parts@.map_values(|x: String| x@)[i as int] == pattern_parts@[i as int]@);
        assert(pat.take(i + 1).drop_last() =~= pat.take(i as int));
        assert(parts.take(i + 1).drop_last() =~= parts.take(i as int));
        if starts_with_char(pattern_part, ':') {
            let plen = pattern_part.unicode_len();
            let name = String::from_str(pattern_part.substring_char(1, plen));
            assert(name@ =~= pat[i as int].drop_first());
            insert_param(&mut params, name, String::from_str(url_part));
        } else if !str_eq(pattern_part, url_part) {
            assert(pattern_part@ == pat[i as int]);
            assert(url_part@ == parts[i as int]);
            assert(!(is_param_segment(pat[i as int]) || pat[i as int] == parts[i as int]));
            assert(!segments_match(pat, parts));
            return None;
        }
        i = i + 1;
    }
    assert(pat.take(pat.len() as int) =~= pat);
    assert(parts.take(parts.len() as int) =~= parts);
    Some(params)
}

// ── Navigator ──────────────────────────────────────────────────────────

/// The screen that is visible: the top modal, else the top of the stack.
pub open spec fn active_of(stack: Seq<Screen>, modals: Seq<Screen>) -> Option<Screen> {
    if modals.len() > 0 {
        Some(modals.last())
    } else if stack.len() > 0 {
        Some(stack.last())
    } else {
        None
    }
}

/// The state-change report for the given stacks: one event naming the
/// active route and the combined depth, or nothing when no screen is active.
pub open spec fn state_change_events(stack: Seq<Screen>, modals: Seq<Screen>) -> Seq<NavigationEvent> {
    match active_of(stack, modals) {
        Some(s) => seq![
            NavigationEvent::StateChanged {
                stack_depth: (stack.len() + modals.len()) as usize,
                active_route: s.route_name,
            },
        ],
        None => Seq::empty(),
    }
}

/// The events of popping `stack` down to `target` screens, one screen at a time.
pub open spec fn pop_events(stack: Seq<Screen>, modals: Seq<Screen>, target: nat) -> Seq<
    NavigationEvent,
>
    decreases stack.len(),
{
    if stack.len() <= target {
        Seq::empty()
    } else {
        let rest = stack.drop_last();
        seq![NavigationEvent::ScreenUnmounting { screen_id: stack.last().id }]
            + state_change_events(rest, modals) + pop_events(rest, modals, target)
    }
}

/// `s` is a newly created screen with the given id, route, parameters and presentation.
pub open spec fn is_new_screen(
    s: Screen,
    id: nat,
    route: String,
    params: Map<String, String>,
    presentation: Presentation,
) -> bool {
    &&& s.id == ScreenId(id as u64)
    &&& s.route_name == route
    &&& s.params@ == params
    &&& s.presentation == presentation
    &&& s.root_node is None
    &&& s.native_handle is None
}

/// `after` is `before` with one new screen pushed on top.
pub open spec fn pushed_one(
    before: Seq<Screen>,
    after: Seq<Screen>,
    id: nat,
    route: String,
    params: Map<String, String>,
    presentation: Presentation,
) -> bool {
    &&& after.len() == before.len() + 1
    &&& after.drop_last() == before
    &&& is_new_screen(after.last(), id, route, params, presentation)
}

pub open spec fn ids_below(s: Seq<Screen>, n: nat) -> bool {
    forall|i: int| 0 <= i < s.len() ==> (#[trigger] s[i]).id.0 < n
}

pub open spec fn ids_distinct(s: Seq<Screen>) -> bool {
    forall|i: int, j: int| 0 <= i < s.len() && 0 <= j < s.len() && i != j ==> (#[trigger] s[i]).id
        != (#[trigger] s[j]).id
}

pub open spec fn ids_disjoint(a: Seq<Screen>, b: Seq<Screen>) -> bool {
    forall|i: int, j: int| 0 <= i < a.len() && 0 <= j < b.len() ==> (#[trigger] a[i]).id != (
    #[trigger] b[j]).id
}

pub open spec fn names_distinct(r: Seq<RouteDefinition>) -> bool {
    forall|i: int, j: int| 0 <= i < r.len() && 0 <= j < r.len() && i != j ==> (#[trigger] r[i]).name@
        != (#[trigger] r[j]).name@
}

/// `r` has a path pattern that matches `url`.
pub open spec fn route_matches(r: RouteDefinition, url: Seq<char>) -> bool {
    r.path matches Some(p) && spec_match_path(p@, url) is Some
}

/// `k` is the first route that matches `url`.
pub open spec fn is_first_match(routes: Seq<RouteDefinition>, url: Seq<char>, k: int) -> bool {
    &&& 0 <= k < routes.len()
    &&& route_matches(routes[k], url)
    &&& forall|j: int| 0 <= j < k ==> !route_matches(#[trigger] routes[j], url)
}

/// The navigator manages all navigation state.
pub struct Navigator {
    /// Route definitions, at most one per name.
    routes: Vec<RouteDefinition>,
    /// The main stack.
    stack: Vec<Screen>,
    /// Modal stack, layered on top of the main stack.
    modals: Vec<Screen>,
    /// Tab screens.
    tabs: Vec<Screen>,
    active_tab: usize,
    /// Next screen id to hand out.
    next_screen_id: u64,
}

impl Navigator {
    pub closed spec fn routes(&self) -> Seq<RouteDefinition> {
        self.routes@
    }

    pub closed spec fn stack(&self) -> Seq<Screen> {
        self.stack@
    }

    pub closed spec fn modals(&self) -> Seq<Screen> {
        self.modals@
    }

    pub closed spec fn tabs(&self) -> Seq<Screen> {
        self.tabs@
    }

    pub closed spec fn active_tab_index(&self) -> nat {
        self.active_tab as nat
    }

    pub closed spec fn next_id(&self) -> nat {
        self.next_screen_id as nat
    }

    /// Number of screens held on the stack, the modal stack and the tab list.
    pub open spec fn screen_count(&self) -> nat {
        self.stack().len() + self.modals().len() + self.tabs().len()
    }

    /// Well-formedness: every screen has a distinct id below the counter,
    /// modals are presented modally and the main stack holds no modal, and
    /// every route name is registered once.
    pub closed spec fn wf(&self) -> bool {
        &&& self.stack@.len() + self.modals@.len() + self.tabs@.len() < self.next_screen_id
        &&& self.stack@.len() + self.modals@.len() + self.tabs@.len() < usize::MAX
        &&& ids_below(self.stack@, self.next_screen_id as nat)
        &&& ids_below(self.modals@, self.next_screen_id as nat)
        &&& ids_below(self.tabs@, self.next_screen_id as nat)
        &&& ids_distinct(self.stack@)
        &&& ids_distinct(self.modals@)
        &&& ids_distinct(self.tabs@)
        &&& ids_disjoint(self.stack@, self.modals@)
        &&& ids_disjoint(self.stack@, self.tabs@)
        &&& ids_disjoint(self.modals@, self.tabs@)
        &&& forall|i: int| 0 <= i < self.stack@.len() ==> (#[trigger] self.stack@[i]).presentation != Presentation::Modal
        &&& forall|i: int| 0 <= i < self.modals@.len() ==> (#[trigger] self.modals@[i]).presentation == Presentation::Modal
        &&& names_distinct(self.routes@)
    }

    pub fn new() -> (n: Self)
        ensures
            n.wf(),
            n.routes() == Seq::<RouteDefinition>::empty(),
            n.stack() == Seq::<Screen>::empty(),
            n.modals() == Seq::<Screen>::empty(),
            n.tabs() == Seq::<Screen>::empty(),
            n.active_tab_index() == 0,
            n.next_id() == 1,
    {
        Navigator {
            routes: Vec::new(),
            stack: Vec::new(),
            modals: Vec::new(),
            tabs: Vec::new(),
            active_tab: 0,
            next_screen_id: 1,
        }
    }

    /// Register a route definition; a route of the same name is replaced.
    pub fn register_route(&mut self, route: RouteDefinition)
        requires
            old(self).wf(),
        ensures
            final(self).wf(),
            final(self).stack() == old(self).stack(),
            final(self).modals() == old(self).modals(),
            final(self).tabs() == old(self).tabs(),
            final(self).active_tab_index() == old(self).active_tab_index(),
            final(self).next_id() == old(self).next_id(),
            (exists|k: int|
                0 <= k < old(self).routes().len() && (#[trigger] old(self).routes()[k]).name@
                    == route.name@) ==> final(self).routes().len() == old(self).routes().len()
                && exists|k: int|
                0 <= k < old(self).routes().len() && (#[trigger] old(self).routes()[k]).name@
                    == route.name@ && final(self).routes() == old(self).routes().update(k, route),
            !(exists|k: int|
                0 <= k < old(self).routes().len() && (#[trigger] old(self).routes()[k]).name@
                    == route.name@) ==> final(self).routes() == old(self).routes().push(route),
    {
        let mut k: usize = 0;
        while k < self.routes.len()
            invariant
                *self == *old(self),
                self.wf(),
                k <= self.routes@.len(),
                forall|j: int| 0 <= j < k ==> (#[trigger] self.routes@[j]).name@ != route.name@,
            decreases self.routes@.len() - k,
        {
            if str_eq(self.routes[k].name.as_str(), route.name.as_str()) {
                let ghost before = self.routes@;
                self.routes.set(k, route);
                proof {
                    assert forall|i: int, j: int|
                        0 <= i < self.routes@.len() && 0 <= j < self.routes@.len() && i != j
                            implies (#[trigger] self.routes@[i]).name@ != (
                        #[trigger] self.routes@[j]).name@ by {
                        if i != k && j != k {
                            assert(before[i] == self.routes@[i]);
                            assert(before[j] == self.routes@[j]);
                        } else if i == k {
                            assert(before[j] == self.routes@[j]);
                            assert(before[k as int].name@ == self.routes@[i].name@);
                        } else {
                            assert(before[i] == self.routes@[i]);
                            assert(before[k as int].name@ == self.routes@[j].name@);
                        }
                    }
                }
                return;
            }
            k = k + 1;
        }
        self.routes.push(route);
    }

    /// Process a navigation action. Returns events for React to handle.
    pub fn dispatch(&mut self, action: NavigationAction) -> (events: Vec<NavigationEvent>)
        requires
            old(self).wf(),
            old(self).next_id() < u64::MAX,
            old(self).screen_count() + 1 < usize::MAX,
        ensures
            final(self).wf(),
            final(self).routes() == old(self).routes(),
            Self::dispatch_post(*old(self), *final(self), action, events@),
    {
        let mut events: Vec<NavigationEvent> = Vec::new();
        match action {
            NavigationAction::Push { route, params } => {
                self.push_screen(route, params, Presentation::Push, &mut events);
            },
            NavigationAction::Pop => {
                self.pop_screen(&mut events);
            },
            NavigationAction::PopToRoot => {
                let ghost old_stack = self.stack@;
                let ghost modals = self.modals@;
                assert(old_stack.take(old_stack.len() as int) =~= old_stack);
                while self.stack.len() > 1
                    invariant
                        self.wf(),
                        self.modals@ == modals,
                        self.routes@ == old(self).routes@,
                        self.tabs@ == old(self).tabs@,
                        self.active_tab == old(self).active_tab,
                        self.next_screen_id == old(self).next_screen_id,
                        1 <= old_stack.len() ==> 1 <= self.stack@.len(),
                        self.stack@.len() <= old_stack.len(),
                        self.stack@ == old_stack.take(self.stack@.len() as int),
                        events@ + pop_events(self.stack@, modals, 1) == pop_events(
                            old_stack,
                            modals,
                            1,
                        ),
                    decreases self.stack@.len(),
                {
                    let ghost before_events = events@;
                    let ghost before_stack = self.stack@;
                    self.pop_screen(&mut events);
                    proof {
                        let rest = before_stack.drop_last();
                        let u = seq![NavigationEvent::ScreenUnmounting { screen_id: before_stack.last().id }];
                        assert(self.stack@ == rest);
                        assert(pop_events(rest, modals, (before_stack.len() - 1) as nat) =~= Seq::<NavigationEvent>::empty());
                        assert(pop_events(before_stack, modals, (before_stack.len() - 1) as nat) =~= u + state_change_events(rest, modals));
                        assert(pop_events(before_stack, modals, 1) =~= u + state_change_events(rest, modals) + pop_events(rest, modals, 1));
                        assert(before_stack.drop_last() =~= old_stack.take(
                            self.stack@.len() as int,
                        ));
                        assert(events@ + pop_events(self.stack@, modals, 1) =~= before_events
                            + pop_events(before_stack, modals, 1));
                    }
                }
                assert(events@ =~= events@ + pop_events(self.stack@, modals, 1));
            },
            NavigationAction::Replace { route, params } => {
                if self.stack.len() > 0 {
                    let ghost before = self.stack@;
                    let screen = self.stack.pop().unwrap();
                    events.push(NavigationEvent::ScreenUnmounting { screen_id: screen.id });
                    proof {
                        assert forall|i: int| 0 <= i < self.stack@.len() implies #[trigger] self.stack@[i]
                            == before[i] by {}
                    }
                }
                self.push_screen(route, params, Presentation::Replace, &mut events);
            },
            NavigationAction::PresentModal { route, params } => {
                self.push_screen(route, params, Presentation::Modal, &mut events);
            },
            NavigationAction::DismissModal => {
                self.dismiss_modal(&mut events);
            },
            NavigationAction::SwitchTab { index } => {
                if index < self.tabs.len() {
                    self.active_tab = index;
                    events.push(NavigationEvent::ActiveScreenChanged { screen_id: self.tabs[index].id });
                }
            },
            NavigationAction::DeepLink { url } => {
                self.resolve_deep_link(url.as_str(), &mut events);
            },
            NavigationAction::GoBack => {
                // Priority: dismiss modal, then pop the stack, else nothing.
                if self.modals.len() > 0 {
                    self.dismiss_modal(&mut events);
                } else if self.stack.len() > 1 {
                    self.pop_screen(&mut events);
                }
            },
        }
        events
    }

    /// What `dispatch(action)` does to the navigator, and the events it reports.
    pub open spec fn dispatch_post(
        pre: Navigator,
        post: Navigator,
        action: NavigationAction,
        events: Seq<NavigationEvent>,
    ) -> bool {
        match action {
            NavigationAction::Push { route, params } => {
                &&& pushed_one(pre.stack(), post.stack(), pre.next_id(), route, params@, Presentation::Push)
                &&& post.modals() == pre.modals()
                &&& post.tabs() == pre.tabs()
                &&& post.active_tab_index() == pre.active_tab_index()
                &&& post.next_id() == pre.next_id() + 1
                &&& events == seq![
                    NavigationEvent::ScreenMounted {
                        screen_id: ScreenId(pre.next_id() as u64),
                        route_name: route,
                        params,
                    },
                ] + state_change_events(post.stack(), post.modals())
            },
            NavigationAction::Pop => {
                &&& post.modals() == pre.modals()
                &&& post.tabs() == pre.tabs()
                &&& post.active_tab_index() == pre.active_tab_index()
                &&& post.next_id() == pre.next_id()
                &&& if pre.stack().len() <= 1 {
                    post.stack() == pre.stack() && events == Seq::<NavigationEvent>::empty()
                } else {
                    &&& post.stack() == pre.stack().drop_last()
                    &&& events == pop_events(pre.stack(), pre.modals(), (pre.stack().len() - 1) as nat)
                }
            },
            NavigationAction::PopToRoot => {
                &&& post.modals() == pre.modals()
                &&& post.tabs() == pre.tabs()
                &&& post.active_tab_index() == pre.active_tab_index()
                &&& post.next_id() == pre.next_id()
                &&& if pre.stack().len() <= 1 {
                    post.stack() == pre.stack()
                } else {
                    post.stack() == pre.stack().take(1)
                }
                &&& events == pop_events(pre.stack(), pre.modals(), 1)
            },
            NavigationAction::Replace { route, params } => {
                let kept = if pre.stack().len() > 0 {
                    pre.stack().drop_last()
                } else {
                    pre.stack()
                };
                let unmounted = if pre.stack().len() > 0 {
                    seq![NavigationEvent::ScreenUnmounting { screen_id: pre.stack().last().id }]
                } else {
                    Seq::<NavigationEvent>::empty()
                };
                &&& pushed_one(kept, post.stack(), pre.next_id(), route, params@, Presentation::Replace)
                &&& post.modals() == pre.modals()
                &&& post.tabs() == pre.tabs()
                &&& post.active_tab_index() == pre.active_tab_index()
                &&& post.next_id() == pre.next_id() + 1
                &&& events == unmounted + seq![
                    NavigationEvent::ScreenMounted {
                        screen_id: ScreenId(pre.next_id() as u64),
                        route_name: route,
                        params,
                    },
                ] + state_change_events(post.stack(), post.modals())
            },
            NavigationAction::PresentModal { route, params } => {
                &&& pushed_one(pre.modals(), post.modals(), pre.next_id(), route, params@, Presentation::Modal)
                &&& post.stack() == pre.stack()
                &&& post.tabs() == pre.tabs()
                &&& post.active_tab_index() == pre.active_tab_index()
                &&& post.next_id() == pre.next_id() + 1
                &&& events == seq![
                    NavigationEvent::ScreenMounted {
                        screen_id: ScreenId(pre.next_id() as u64),
                        route_name: route,
                        params,
                    },
                ] + state_change_events(post.stack(), post.modals())
            },
            NavigationAction::DismissModal => {
                &&& post.stack() == pre.stack()
                &&& post.tabs() == pre.tabs()
                &&& post.active_tab_index() == pre.active_tab_index()
                &&& post.next_id() == pre.next_id()
                &&& if pre.modals().len() == 0 {
                    post.modals() == pre.modals() && events == Seq::<NavigationEvent>::empty()
                } else {
                    &&& post.modals() == pre.modals().drop_last()
                    &&& events == seq![NavigationEvent::ScreenUnmounting { screen_id: pre.modals().last().id }]
                        + state_change_events(post.stack(), post.modals())
                }
            },
            NavigationAction::SwitchTab { index } => {
                &&& post.stack() == pre.stack()
                &&& post.modals() == pre.modals()
                &&& post.tabs() == pre.tabs()
                &&& post.next_id() == pre.next_id()
                &&& if index < pre.tabs().len() {
                    &&& post.active_tab_index() == index
                    &&& events == seq![NavigationEvent::ActiveScreenChanged { screen_id: pre.tabs()[index as int].id }]
                } else {
                    post.active_tab_index() == pre.active_tab_index() && events == Seq::<NavigationEvent>::empty()
                }
            },
            NavigationAction::DeepLink { url } => Self::deep_link_post(pre, post, url@, events),
            NavigationAction::GoBack => {
                &&& post.tabs() == pre.tabs()
                &&& post.active_tab_index() == pre.active_tab_index()
                &&& post.next_id() == pre.next_id()
                &&& if pre.modals().len() > 0 {
                    &&& post.modals() == pre.modals().drop_last()
                    &&& post.stack() == pre.stack()
                    &&& events == seq![NavigationEvent::ScreenUnmounting { screen_id: pre.modals().last().id }]
                        + state_change_events(post.stack(), post.modals())
                } else if pre.stack().len() > 1 {
                    &&& post.modals() == pre.modals()
                    &&& post.stack() == pre.stack().drop_last()
                    &&& events == pop_events(pre.stack(), pre.modals(), (pre.stack().len() - 1) as nat)
                } else {
                    &&& post.modals() == pre.modals()
                    &&& post.stack() == pre.stack()
                    &&& events == Seq::<NavigationEvent>::empty()
                }
            },
        }
    }

    /// Deep link resolution: the first route whose pattern matches the URL is
    /// pushed (as a modal when the route is presented modally), carrying the
    /// bound parameters; with no match nothing changes.
    pub open spec fn deep_link_post(
        pre: Navigator,
        post: Navigator,
        url: Seq<char>,
        events: Seq<NavigationEvent>,
    ) -> bool {
        &&& post.tabs() == pre.tabs()
        &&& post.active_tab_index() == pre.active_tab_index()
        &&& if exists|k: int| is_first_match(pre.routes(), url, k) {
            let k = choose|k: int| is_first_match(pre.routes(), url, k);
            let r = pre.routes()[k];
            let bound = spec_match_path(r.path->0@, url)->0;
            let modal = r.presentation == Presentation::Modal;
            let screens_before = if modal { pre.modals() } else { pre.stack() };
            let screens_after = if modal { post.modals() } else { post.stack() };
            &&& post.next_id() == pre.next_id() + 1
            &&& (if modal { post.stack() == pre.stack() } else { post.modals() == pre.modals() })
            &&& screens_after.len() == screens_before.len() + 1
            &&& screens_after.drop_last() == screens_before
            &&& screens_after.last().id == ScreenId(pre.next_id() as u64)
            &&& screens_after.last().route_name == r.name
            &&& screens_after.last().params.deep_view() == bound
            &&& screens_after.last().presentation == (if modal {
                Presentation::Modal
            } else {
                Presentation::Push
            })
            &&& screens_after.last().root_node is None
            &&& screens_after.last().native_handle is None
            &&& events.len() == 1 + state_change_events(post.stack(), post.modals()).len()
            &&& events[0] matches NavigationEvent::ScreenMounted { screen_id, route_name, params }
                && screen_id == ScreenId(pre.next_id() as u64) && route_name == r.name
                && params.deep_view() == bound && params@ == screens_after.last().params@
            &&& events.drop_first() == state_change_events(post.stack(), post.modals())
        } else {
            &&& post.stack() == pre.stack()
            &&& post.modals() == pre.modals()
            &&& post.next_id() == pre.next_id()
            &&& events == Seq::<NavigationEvent>::empty()
        }
    }

    fn push_screen(
        &mut self,
        route_name: String,
        params: HashMap<String, String>,
        presentation: Presentation,
        events: &mut Vec<NavigationEvent>,
    )
        requires
            old(self).wf(),
            old(self).next_id() < u64::MAX,
            old(self).screen_count() + 1 < usize::MAX,
            presentation != Presentation::Tab,
        ensures
            final(self).wf(),
            final(self).routes() == old(self).routes(),
            final(self).tabs() == old(self).tabs(),
            final(self).active_tab_index() == old(self).active_tab_index(),
            final(self).next_id() == old(self).next_id() + 1,
            presentation == Presentation::Modal ==> {
                &&& pushed_one(old(self).modals(), final(self).modals(), old(self).next_id(), route_name, params@, presentation)
                &&& final(self).stack() == old(self).stack()
            },
            presentation != Presentation::Modal ==> {
                &&& pushed_one(old(self).stack(), final(self).stack(), old(self).next_id(), route_name, params@, presentation)
                &&& final(self).modals() == old(self).modals()
            },
            final(events)@ == old(events)@ + seq![
                NavigationEvent::ScreenMounted {
                    screen_id: ScreenId(old(self).next_id() as u64),
                    route_name,
                    params,
                },
            ] + state_change_events(final(self).stack(), final(self).modals()),
    {
        let screen_id = ScreenId(self.next_screen_id);
        self.next_screen_id = self.next_screen_id + 1;
        let screen = Screen {
            id: screen_id,
            route_name: route_name.clone(),
            params: params.clone(),
            presentation,
            root_node: None,
            native_handle: None,
        };
        let ghost old_stack = self.stack@;
        let ghost old_modals = self.modals@;
        match presentation {
            Presentation::Modal => self.modals.push(screen),
            _ => self.stack.push(screen),
        }
        proof {
            assert(self.stack@.drop_last() =~= old_stack || self.stack@ == old_stack);
            assert(self.modals@.drop_last() =~= old_modals || self.modals@ == old_modals);
        }
        events.push(NavigationEvent::ScreenMounted { screen_id, route_name, params });
        self.emit_active_changed(events);
    }

    fn pop_screen(&mut self, events: &mut Vec<NavigationEvent>)
        requires
            old(self).wf(),
        ensures
            final(self).wf(),
            final(self).routes() == old(self).routes(),
            final(self).modals() == old(self).modals(),
            final(self).tabs() == old(self).tabs(),
            final(self).active_tab_index() == old(self).active_tab_index(),
            final(self).next_id() == old(self).next_id(),
            old(self).stack().len() <= 1 ==> final(self).stack() == old(self).stack() && final(events)@ == old(events)@,
            old(self).stack().len() > 1 ==> final(self).stack() == old(self).stack().drop_last()
                && final(events)@ == old(events)@ + pop_events(
                old(self).stack(),
                old(self).modals(),
                (old(self).stack().len() - 1) as nat,
            ),
    {
        if self.stack.len() <= 1 {
            return;  // Never pop the root screen

        }
        let ghost before = self.stack@;
        let screen = self.stack.pop().unwrap();
        proof {
            assert(self.stack@ =~= before.drop_last());
            let rest = before.drop_last();
            assert(pop_events(rest, self.modals@, (before.len() - 1) as nat) =~= Seq::<
                NavigationEvent,
            >::empty());
        }
        events.push(NavigationEvent::ScreenUnmounting { screen_id: screen.id });
        self.emit_active_changed(events);
    }

    fn dismiss_modal(&mut self, events: &mut Vec<NavigationEvent>)
        requires
            old(self).wf(),
        ensures
            final(self).wf(),
            final(self).routes() == old(self).routes(),
            final(self).stack() == old(self).stack(),
            final(self).tabs() == old(self).tabs(),
            final(self).active_tab_index() == old(self).active_tab_index(),
            final(self).next_id() == old(self).next_id(),
            old(self).modals().len() == 0 ==> final(self).modals() == old(self).modals() && final(events)@ == old(events)@,
            old(self).modals().len() > 0 ==> final(self).modals() == old(self).modals().drop_last()
                && final(events)@ == old(events)@ + seq![
                NavigationEvent::ScreenUnmounting { screen_id: old(self).modals().last().id },
            ] + state_change_events(final(self).stack(), final(self).modals()),
    {
        if self.modals.len() > 0 {
            let ghost before = self.modals@;
            let modal = self.modals.pop().unwrap();
            assert(self.modals@ =~= before.drop_last());
            events.push(NavigationEvent::ScreenUnmounting { screen_id: modal.id });
            self.emit_active_changed(events);
        }
    }

    fn emit_active_changed(&self, events: &mut Vec<NavigationEvent>)
        requires
            self.stack@.len() + self.modals@.len() < usize::MAX,
        ensures
            final(events)@ == old(events)@ + state_change_events(self.stack(), self.modals()),
    {
        let ghost before = events@;
        match self.active_screen() {
            Some(screen) => {
                events.push(NavigationEvent::StateChanged {
                    stack_depth: self.stack.len() + self.modals.len(),
                    active_route: screen.route_name.clone(),
                });
            },
            None => {},
        }
        assert(events@ =~= before + state_change_events(self.stack(), self.modals()));
    }

    /// Resolve a deep link URL: push the first route whose path matches.
    fn resolve_deep_link(&mut self, url: &str, events: &mut Vec<NavigationEvent>)
        requires
            old(self).wf(),
            old(self).next_id() < u64::MAX,
            old(self).screen_count() + 1 < usize::MAX,
            old(events)@ == Seq::<NavigationEvent>::empty(),
        ensures
            final(self).wf(),
            final(self).routes() == old(self).routes(),
            Self::deep_link_post(*old(self), *final(self), url@, final(events)@),
    {
        let mut k: usize = 0;
        while k < self.routes.len()
            invariant
                self.wf(),
                *self == *old(self),
                events@ == Seq::<NavigationEvent>::empty(),
                self.next_id() < u64::MAX,
                self.screen_count() + 1 < usize::MAX,
                k <= self.routes@.len(),
                forall|j: int| 0 <= j < k ==> !route_matches(#[trigger] self.routes@[j], url@),
            decreases self.routes@.len() - k,
        {
            let matched = match &self.routes[k].path {
                Some(pattern) => match_path(pattern.as_str(), url),
                None => None,
            };
            match matched {
                Some(params) => {
                    let ghost pre = *self;
                    proof {
                        assert(is_first_match(pre.routes(), url@, k as int));
                        assert forall|k2: int| is_first_match(pre.routes(), url@, k2) implies k2
                            == k by {
                            if k2 < k {
                                assert(!route_matches(pre.routes()[k2], url@));
                            } else if k2 > k {
                                assert(!route_matches(pre.routes()[k as int], url@));
                            }
                        }
                    }
                    let route_name = self.routes[k].name.clone();
                    let presentation = match self.routes[k].presentation {
                        Presentation::Modal => Presentation::Modal,
                        _ => Presentation::Push,
                    };
                    let ghost bound = params.deep_view();
                    let ghost pview = params@;
                    self.push_screen(route_name, params, presentation, events);
                    proof {
                        let after = if presentation == Presentation::Modal {
                            self.modals@
                        } else {
                            self.stack@
                        };
                        let s = after.last();
                        assert(s.params@ == pview);
                        reveal(vstd::std_specs::hash::hash_map_deep_view_impl);
                        assert(s.params.deep_view() =~= bound);
                        assert(events@.drop_first() =~= state_change_events(
                            self.stack(),
                            self.modals(),
                        ));
                    }
                    return;
                },
                None => {},
            }
            k = k + 1;
        }
    }

    /// Get the currently active (visible) screen.
    pub fn active_screen(&self) -> (r: Option<&Screen>)
        ensures
            match r {
                Some(s) => active_of(self.stack(), self.modals()) == Some(*s),
                None => active_of(self.stack(), self.modals()) is None,
            },
    {
        let n = self.modals.len();
        if n > 0 {
            Some(&self.modals[n - 1])
        } else {
            let m = self.stack.len();
            if m > 0 {
                Some(&self.stack[m - 1])
            } else {
                None
            }
        }
    }

    /// The main stack followed by the modal stack, bottom to top.
    pub fn stack_snapshot(&self) -> (r: Vec<&Screen>)
        ensures
            r@.len() == self.stack().len() + self.modals().len(),
            forall|i: int| 0 <= i < r@.len() ==> *(#[trigger] r@[i]) == (self.stack() + self.modals())[i],
    {
        let mut r: Vec<&Screen> = Vec::new();
        let mut i: usize = 0;
        while i < self.stack.len()
            invariant
                i <= self.stack@.len(),
                r@.len() == i,
                forall|q: int| 0 <= q < i ==> *(#[trigger] r@[q]) == self.stack@[q],
            decreases self.stack@.len() - i,
        {
            r.push(&self.stack[i]);
            i = i + 1;
        }
        let mut j: usize = 0;
        while j < self.modals.len()
            invariant
                j <= self.modals@.len(),
                r@.len() == self.stack@.len() + j,
                forall|q: int| 0 <= q < self.stack@.len() ==> *(#[trigger] r@[q]) == self.stack@[q],
                forall|q: int|
                    0 <= q < j ==> *(#[trigger] r@[self.stack@.len() + q]) == self.modals@[q],
            decreases self.modals@.len() - j,
        {
            r.push(&self.modals[j]);
            j = j + 1;
        }
        proof {
            assert forall|q: int| 0 <= q < r@.len() implies *(#[trigger] r@[q]) == (self.stack()
                + self.modals())[q] by {
                if q >= self.stack@.len() {
                    let d = q - self.stack@.len();
                    assert(*r@[self.stack@.len() + d] == self.modals@[d]);
                }
            }
        }
        r
    }

    /// Whether another action can be dispatched: a fresh screen id and one
    /// more screen are still to be had.
    pub fn has_room(&self) -> (r: bool)
        requires
            self.wf(),
        ensures
            r == (self.next_id() < u64::MAX && self.screen_count() + 1 < usize::MAX),
    {
        self.next_screen_id < u64::MAX && self.stack.len() < usize::MAX - 1 - self.modals.len() - self.tabs.len()
    }

    /// Check if back navigation is possible.
    pub fn can_go_back(&self) -> (r: bool)
        ensures
            r == (self.modals().len() > 0 || self.stack().len() > 1),
    {
        !self.modals.is_empty() || self.stack.len() > 1
    }

    /// Number of screens on the main stack.
    pub fn stack_len(&self) -> (r: usize)
        ensures
            r == self.stack().len(),
    {
        self.stack.len()
    }

    /// Number of modals presented.
    pub fn modal_count(&self) -> (r: usize)
        ensures
            r == self.modals().len(),
    {
        self.modals.len()
    }
}


// ── Laws ───────────────────────────────────────────────────────────────

/// The root screen is never popped: after `Pop`, `PopToRoot` or `GoBack` on a
/// non-empty stack, the stack still starts with the same root screen.
pub proof fn lemma_root_screen_kept(
    pre: Navigator,
    post: Navigator,
    action: NavigationAction,
    events: Seq<NavigationEvent>,
)
    requires
        action is Pop || action is PopToRoot || action is GoBack,
        Navigator::dispatch_post(pre, post, action, events),
        pre.stack().len() >= 1,
    ensures
        post.stack().len() >= 1,
        post.stack()[0] == pre.stack()[0],
{
}

/// The state-change report: for a navigator showing a screen, one
/// `StateChanged` event whose depth counts the main stack and the modals
/// together and whose route is the visible screen's (the top modal, else the
/// top of the stack); nothing when no screen is shown.
pub proof fn lemma_state_change_reports_depth(stack: Seq<Screen>, modals: Seq<Screen>)
    ensures
        state_change_events(stack, modals) == if modals.len() > 0 {
            seq![
                NavigationEvent::StateChanged {
                    stack_depth: (stack.len() + modals.len()) as usize,
                    active_route: modals[modals.len() - 1].route_name,
                },
            ]
        } else if stack.len() > 0 {
            seq![
                NavigationEvent::StateChanged {
                    stack_depth: (stack.len() + modals.len()) as usize,
                    active_route: stack[stack.len() - 1].route_name,
                },
            ]
        } else {
            Seq::<NavigationEvent>::empty()
        },
{
}

/// Popping down to `t >= 1` screens reports, last, the state once popped.
proof fn lemma_pop_events_last(stack: Seq<Screen>, modals: Seq<Screen>, t: nat)
    requires
        t >= 1,
        stack.len() > t,
    ensures
        pop_events(stack, modals, t).len() > 0,
        pop_events(stack, modals, t).last() == state_change_events(stack.take(t as int), modals).last(),
        state_change_events(stack.take(t as int), modals).len() == 1,
    decreases stack.len(),
{
    let rest = stack.drop_last();
    lemma_state_change_reports_depth(rest, modals);
    lemma_state_change_reports_depth(stack.take(t as int), modals);
    if rest.len() > t {
        lemma_pop_events_last(rest, modals, t);
        assert(rest.take(t as int) =~= stack.take(t as int));
    } else {
        assert(rest =~= stack.take(t as int));
        assert(pop_events(rest, modals, t) =~= Seq::<NavigationEvent>::empty());
    }
}

/// Every action but a tab switch that reports anything and leaves a screen
/// shown reports last the state it leaves: a `StateChanged` whose depth is the
/// number of screens on the main stack and the modal stack together, and
/// whose route is the visible screen's.
pub proof fn lemma_dispatch_reports_final_state(
    pre: Navigator,
    post: Navigator,
    action: NavigationAction,
    events: Seq<NavigationEvent>,
)
    requires
        !(action is SwitchTab),
        Navigator::dispatch_post(pre, post, action, events),
        events.len() > 0,
        post.stack().len() + post.modals().len() > 0,
    ensures
        events.last() == (NavigationEvent::StateChanged {
            stack_depth: (post.stack().len() + post.modals().len()) as usize,
            active_route: if post.modals().len() > 0 {
                post.modals().last().route_name
            } else {
                post.stack().last().route_name
            },
        }),
{
    lemma_state_change_reports_depth(post.stack(), post.modals());
    let sc = state_change_events(post.stack(), post.modals());
    assert(sc.len() == 1);
    let sc_last = sc.last();
    match action {
        NavigationAction::Pop => {
            let t = (pre.stack().len() - 1) as nat;
            lemma_pop_events_last(pre.stack(), pre.modals(), t);
            assert(pre.stack().take(t as int) =~= post.stack());
        },
        NavigationAction::PopToRoot => {
            if pre.stack().len() > 1 {
                lemma_pop_events_last(pre.stack(), pre.modals(), 1);
            } else {
                assert(pop_events(pre.stack(), pre.modals(), 1) =~= Seq::<NavigationEvent>::empty());
            }
        },
        NavigationAction::GoBack => {
            if pre.modals().len() > 0 {
                let e0 = seq![NavigationEvent::ScreenUnmounting { screen_id: pre.modals().last().id }];
                assert(events == e0 + sc);
                assert((e0 + sc).last() == sc_last);
            } else if pre.stack().len() > 1 {
                let t = (pre.stack().len() - 1) as nat;
                lemma_pop_events_last(pre.stack(), pre.modals(), t);
                assert(pre.stack().take(t as int) =~= post.stack());
            }
        },
        NavigationAction::DeepLink { url } => {
            if exists|k: int| is_first_match(pre.routes(), url@, k) {
                assert(events.last() == events.drop_first().last());
            }
        },
        NavigationAction::Push { route, params } => {
            let e0 = seq![
                NavigationEvent::ScreenMounted { screen_id: ScreenId(pre.next_id() as u64), route_name: route, params },
            ];
            assert((e0 + sc).last() == sc_last);
        },
        NavigationAction::PresentModal { route, params } => {
            let e0 = seq![
                NavigationEvent::ScreenMounted { screen_id: ScreenId(pre.next_id() as u64), route_name: route, params },
            ];
            assert((e0 + sc).last() == sc_last);
        },
        NavigationAction::Replace { route, params } => {
            let unmounted = if pre.stack().len() > 0 {
                seq![NavigationEvent::ScreenUnmounting { screen_id: pre.stack().last().id }]
            } else {
                Seq::<NavigationEvent>::empty()
            };
            let e0 = unmounted + seq![
                NavigationEvent::ScreenMounted { screen_id: ScreenId(pre.next_id() as u64), route_name: route, params },
            ];
            assert(events == e0 + sc);
            assert((e0 + sc).last() == sc_last);
        },
        NavigationAction::DismissModal => {
            if pre.modals().len() > 0 {
                let e0 = seq![NavigationEvent::ScreenUnmounting { screen_id: pre.modals().last().id }];
                assert(events == e0 + sc);
                assert((e0 + sc).last() == sc_last);
            }
        },
        NavigationAction::SwitchTab { .. } => {},
    }
}

/// With only the root screen and no modal, `Pop`, `PopToRoot` and `GoBack`
/// report nothing, keep the root, and back navigation stays impossible.
pub proof fn lemma_single_root_stays(
    pre: Navigator,
    post: Navigator,
    action: NavigationAction,
    events: Seq<NavigationEvent>,
)
    requires
        action is Pop || action is PopToRoot || action is GoBack,
        Navigator::dispatch_post(pre, post, action, events),
        pre.stack().len() == 1,
        pre.modals().len() == 0,
    ensures
        events == Seq::<NavigationEvent>::empty(),
        post.stack() == pre.stack(),
        post.modals() == pre.modals(),
        !(post.modals().len() > 0 || post.stack().len() > 1),
{
    assert(pop_events(pre.stack(), pre.modals(), 1) =~= Seq::<NavigationEvent>::empty());
}

/// Back navigation dismisses the top modal before it touches the stack, and
/// reports what dismissing it reports.
pub proof fn lemma_go_back_dismisses_modal_first(
    pre: Navigator,
    post: Navigator,
    events: Seq<NavigationEvent>,
)
    requires
        Navigator::dispatch_post(pre, post, NavigationAction::GoBack, events),
        pre.modals().len() > 0,
    ensures
        post.stack() == pre.stack(),
        post.modals() == pre.modals().drop_last(),
        events.len() >= 1,
        events[0] == (NavigationEvent::ScreenUnmounting { screen_id: pre.modals().last().id }),
        Navigator::dispatch_post(pre, post, NavigationAction::DismissModal, events),
{
}

/// When back navigation is not possible, `GoBack` changes nothing and reports nothing.
pub proof fn lemma_go_back_without_history(
    pre: Navigator,
    post: Navigator,
    events: Seq<NavigationEvent>,
)
    requires
        Navigator::dispatch_post(pre, post, NavigationAction::GoBack, events),
        !(pre.modals().len() > 0 || pre.stack().len() > 1),
    ensures
        post.stack() == pre.stack(),
        post.modals() == pre.modals(),
        events == Seq::<NavigationEvent>::empty(),
{
}

/// A `Pop` undoes a `Push` onto a non-empty stack.
pub proof fn lemma_pop_undoes_push(
    s0: Navigator,
    s1: Navigator,
    s2: Navigator,
    route: String,
    params: HashMap<String, String>,
    e1: Seq<NavigationEvent>,
    e2: Seq<NavigationEvent>,
)
    requires
        s0.stack().len() >= 1,
        Navigator::dispatch_post(s0, s1, NavigationAction::Push { route, params }, e1),
        Navigator::dispatch_post(s1, s2, NavigationAction::Pop, e2),
    ensures
        s2.stack() == s0.stack(),
        s2.modals() == s0.modals(),
{
}

/// `DismissModal` undoes `PresentModal`.
pub proof fn lemma_dismiss_undoes_present(
    s0: Navigator,
    s1: Navigator,
    s2: Navigator,
    route: String,
    params: HashMap<String, String>,
    e1: Seq<NavigationEvent>,
    e2: Seq<NavigationEvent>,
)
    requires
        Navigator::dispatch_post(s0, s1, NavigationAction::PresentModal { route, params }, e1),
        Navigator::dispatch_post(s1, s2, NavigationAction::DismissModal, e2),
    ensures
        s2.stack() == s0.stack(),
        s2.modals() == s0.modals(),
{
}

/// A pushed screen becomes the active screen unless a modal covers the stack,
/// and the push reports it mounted under a fresh id.
pub proof fn lemma_push_activates(
    pre: Navigator,
    post: Navigator,
    route: String,
    params: HashMap<String, String>,
    events: Seq<NavigationEvent>,
)
    requires
        pre.wf(),
        Navigator::dispatch_post(pre, post, NavigationAction::Push { route, params }, events),
        pre.modals().len() == 0,
    ensures
        active_of(post.stack(), post.modals()) matches Some(s) && s.route_name == route,
        events.len() == 2,
        events[0] matches NavigationEvent::ScreenMounted { screen_id, .. } && screen_id == ScreenId(
            pre.next_id() as u64,
        ),
        forall|i: int| 0 <= i < pre.stack().len() ==> (#[trigger] pre.stack()[i]).id != ScreenId(
            pre.next_id() as u64,
        ),
{
    reveal(Navigator::wf);
}

/// Back navigation is possible exactly when a modal is presented or the main
/// stack holds more than its root: the active screen is a modal, or the stack
/// has at least two screens.
pub proof fn lemma_can_go_back_exact(n: Navigator)
    requires
        n.wf(),
    ensures
        (n.modals().len() > 0 || n.stack().len() > 1) == (n.stack().len() >= 2 || (active_of(
            n.stack(),
            n.modals(),
        ) matches Some(s) && s.presentation == Presentation::Modal)),
{
    if n.modals().len() == 0 && n.stack().len() > 0 {
        assert(n.stack()[n.stack().len() - 1].presentation != Presentation::Modal);
    }
}

/// Every screen a well-formed navigator holds has an id below its counter, so
/// the id the next new screen gets is held by none of them.
pub proof fn lemma_next_id_unused(n: Navigator)
    requires
        n.wf(),
    ensures
        ids_below(n.stack(), n.next_id()),
        ids_below(n.modals(), n.next_id()),
        ids_below(n.tabs(), n.next_id()),
{
}

/// A dispatch never lowers the id counter, and a screen it creates takes the
/// counter's old value: every id it hands out is fresh, unlike any id handed
/// out before or held now.
pub proof fn lemma_dispatch_ids_fresh(
    pre: Navigator,
    post: Navigator,
    action: NavigationAction,
    events: Seq<NavigationEvent>,
)
    requires
        pre.wf(),
        Navigator::dispatch_post(pre, post, action, events),
    ensures
        post.next_id() >= pre.next_id(),
        post.next_id() > pre.next_id() ==> post.next_id() == pre.next_id() + 1,
        action is Push ==> post.stack().last().id == ScreenId(pre.next_id() as u64),
        action is Replace ==> post.stack().last().id == ScreenId(pre.next_id() as u64),
        action is PresentModal ==> post.modals().last().id == ScreenId(pre.next_id() as u64),
        forall|i: int| 0 <= i < pre.stack().len() ==> (#[trigger] pre.stack()[i]).id.0 < pre.next_id(),
        forall|i: int| 0 <= i < pre.modals().len() ==> (#[trigger] pre.modals()[i]).id.0 < pre.next_id(),
        forall|i: int| 0 <= i < pre.tabs().len() ==> (#[trigger] pre.tabs()[i]).id.0 < pre.next_id(),
{
    match action {
        NavigationAction::DeepLink { url } => {
            if exists|k: int| is_first_match(pre.routes(), url@, k) {
            }
        },
        _ => {},
    }
}

/// `Replace` swaps only the top screen of the main stack: the screens below
/// it stay, the new top has a fresh id, and the old top is reported unmounted
/// before the new one is reported mounted.
pub proof fn lemma_replace_swaps_top(
    pre: Navigator,
    post: Navigator,
    route: String,
    params: HashMap<String, String>,
    events: Seq<NavigationEvent>,
)
    requires
        pre.wf(),
        pre.stack().len() > 0,
        Navigator::dispatch_post(pre, post, NavigationAction::Replace { route, params }, events),
    ensures
        post.stack().len() == pre.stack().len(),
        post.stack().drop_last() == pre.stack().drop_last(),
        post.modals() == pre.modals(),
        post.stack().last().id == ScreenId(pre.next_id() as u64),
        post.stack().last().route_name == route,
        post.stack().last().presentation == Presentation::Replace,
        forall|i: int| 0 <= i < pre.stack().len() ==> (#[trigger] pre.stack()[i]).id != post.stack().last().id,
        events.len() >= 2,
        events[0] == (NavigationEvent::ScreenUnmounting { screen_id: pre.stack().last().id }),
        events[1] == (NavigationEvent::ScreenMounted { screen_id: ScreenId(pre.next_id() as u64), route_name: route, params }),
{
    assert forall|i: int| 0 <= i < pre.stack().len() implies (#[trigger] pre.stack()[i]).id != post.stack().last().id by {
        assert(pre.stack()[i].id.0 < pre.next_id());
    }
}

/// Every screen held by a well-formed navigator has its own id.
pub proof fn lemma_screen_ids_unique(n: Navigator)
    requires
        n.wf(),
    ensures
        ids_distinct(n.stack()),
        ids_distinct(n.modals()),
        ids_distinct(n.tabs()),
        ids_disjoint(n.stack(), n.modals()),
        ids_disjoint(n.stack(), n.tabs()),
        ids_disjoint(n.modals(), n.tabs()),
{
}

} // verus!
