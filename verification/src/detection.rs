//! The detection engine: classifies windows against the catalog, diffs
//! successive window snapshots into open / close events, and manages the
//! listener registry.

use vstd::prelude::*;

use crate::catalog::{catalog_view, Executable, ExecutableView, Root2, Root2View};
use crate::text::{
    canon_path_chars, canon_path_seq, chars_contain, chars_end_with, contains_seq, ends_with_seq,
    lower_chars, lower_seq, to_chars,
};

verus! {

/// The classification of a window: a known game, or an ordinary window.
#[derive(Clone, Copy, Debug, PartialEq, Eq, Structural)]
pub enum WindowType {
    Game,
    Window,
}

/// One visible window: a stable process identity, the full path of its
/// executable, and its command line where it is known.
#[derive(Debug, PartialEq)]
pub struct WindowInfo {
    pub pid: u64,
    pub full_exe: String,
    pub cmd_line: Option<String>,
}

/// The mathematical value of a [`WindowInfo`].
pub struct WindowInfoView {
    pub pid: u64,
    pub full_exe: Seq<char>,
    pub cmd_line: Option<Seq<char>>,
}

impl View for WindowInfo {
    type V = WindowInfoView;

    open spec fn view(&self) -> WindowInfoView {
        WindowInfoView {
            pid: self.pid,
            full_exe: self.full_exe@,
            cmd_line: match self.cmd_line {
                Some(c) => Some(c@),
                None => None,
            },
        }
    }
}

impl Clone for WindowInfo {
    fn clone(&self) -> (r: Self)
        ensures
            r@ == self@,
    {
        WindowInfo {
            pid: self.pid,
            full_exe: self.full_exe.clone(),
            cmd_line: match &self.cmd_line {
                Some(c) => Some(c.clone()),
                None => None,
            },
        }
    }
}

/// A window transition observed by one poll tick.
#[derive(Debug, PartialEq)]
pub enum GameEvent {
    Closed(WindowInfo),
    Opened(WindowType, WindowInfo),
}

impl Clone for GameEvent {
    fn clone(&self) -> (r: Self)
        ensures
            r@ == self@,
    {
        match self {
            GameEvent::Closed(w) => GameEvent::Closed(w.clone()),
            GameEvent::Opened(t, w) => GameEvent::Opened(*t, w.clone()),
        }
    }
}

/// The mathematical value of a [`GameEvent`].
pub enum GameEventView {
    Closed(WindowInfoView),
    Opened(WindowType, WindowInfoView),
}

impl View for GameEvent {
    type V = GameEventView;

    open spec fn view(&self) -> GameEventView {
        match self {
            GameEvent::Closed(w) => GameEventView::Closed(w@),
            GameEvent::Opened(t, w) => GameEventView::Opened(*t, w@),
        }
    }
}

/// The mathematical value of a sequence of events.
pub open spec fn events_view(s: Seq<GameEvent>) -> Seq<GameEventView> {
    s.map_values(|e: GameEvent| e@)
}

/// A window matches one catalog executable when the canonical form of its
/// path (lower case, forward slashes) ends with the executable's name folded
/// to lower case, and, where the executable requires an argument substring,
/// the window's command line folded to lower case contains it.
pub open spec fn exe_matches(w: WindowInfoView, e: ExecutableView) -> bool {
    &&& ends_with_seq(canon_path_seq(w.full_exe), lower_seq(e.name))
    &&& match e.arguments {
        Some(a) => match w.cmd_line {
            Some(c) => contains_seq(lower_seq(c), lower_seq(a)),
            None => false,
        },
        None => true,
    }
}

/// A window matches a catalog entry when it matches one of its executables.
pub open spec fn entry_matches(w: WindowInfoView, g: Root2View) -> bool {
    exists|i: int| 0 <= i < g.executables.len() && exe_matches(w, #[trigger] g.executables[i])
}

/// A window is a game when some catalog entry matches it. The result is the
/// same whichever matching entry is found first, so the catalog's iteration
/// order resolves ties without changing the classification.
pub open spec fn is_game(w: WindowInfoView, catalog: Seq<Root2View>) -> bool {
    exists|i: int| 0 <= i < catalog.len() && entry_matches(w, #[trigger] catalog[i])
}

/// The classification of a window against a catalog.
pub open spec fn classify(w: WindowInfoView, catalog: Seq<Root2View>) -> WindowType {
    if is_game(w, catalog) {
        WindowType::Game
    } else {
        WindowType::Window
    }
}

/// Classifies a window against the catalog, entries in order, first match
/// deciding; no match yields `Window`.
pub fn get_window_type(window: &WindowInfo, data: &Vec<Root2>) -> (t: WindowType)
    ensures
        t == classify(window@, catalog_view(data@)),
{
    let path_chars = to_chars(window.full_exe.as_str());
    let path = canon_path_chars(&path_chars);
    let cmd_lower: Option<Vec<char>> = match &window.cmd_line {
        Some(c) => {
            let cc = to_chars(c.as_str());
            Some(lower_chars(&cc))
        },
        None => None,
    };
    let mut i: usize = 0;
    while i < data.len()
        invariant
            i <= data@.len(),
            path@ == canon_path_seq(window@.full_exe),
            (match cmd_lower {
                Some(cl) => window@.cmd_line matches Some(c) && cl@ == lower_seq(c),
                None => window@.cmd_line is None,
            }),
            forall|k: int| 0 <= k < i ==> !entry_matches(window@, catalog_view(data@)[k]),
        decreases data@.len() - i,
    {
        let game = &data[i];
        let mut j: usize = 0;
        while j < game.executables.len()
            invariant
                0 <= i < data@.len(),
                j <= game.executables@.len(),
                game == data@[i as int],
                path@ == canon_path_seq(window@.full_exe),
                (match cmd_lower {
                    Some(cl) => window@.cmd_line matches Some(c) && cl@ == lower_seq(c),
                    None => window@.cmd_line is None,
                }),
                forall|k: int| 0 <= k < j ==> !exe_matches(window@, #[trigger] game@.executables[k]),
            decreases game.executables@.len() - j,
        {
            let exe = &game.executables[j];
            let name_chars = to_chars(exe.name.as_str());
            let name_lower = lower_chars(&name_chars);
            if chars_end_with(&path, &name_lower) {
                match &exe.arguments {
                    None => {
                        proof {
                            assert(exe_matches(window@, game@.executables[j as int]));
                            assert(entry_matches(window@, catalog_view(data@)[i as int]));
                        }
                        return WindowType::Game;
                    },
                    Some(a) => {
                        let matched = match &cmd_lower {
                            Some(cl) => {
                                let a_chars = to_chars(a.as_str());
                                let a_lower = lower_chars(&a_chars);
                                chars_contain(cl, &a_lower)
                            },
                            None => false,
                        };
                        if matched {
                            proof {
                                assert(exe_matches(window@, game@.executables[j as int]));
                                assert(entry_matches(window@, catalog_view(data@)[i as int]));
                            }
                            return WindowType::Game;
                        }
                    },
                }
            }
            j = j + 1;
        }
        proof {
            assert(forall|k: int|
                0 <= k < game@.executables.len() ==> !exe_matches(
                    window@,
                    #[trigger] game@.executables[k],
                ));
            assert(!entry_matches(window@, catalog_view(data@)[i as int]));
        }
        i = i + 1;
    }
    WindowType::Window
}

} // verus!

verus! {

/// Some window in `s` has process identity `pid`.
pub open spec fn has_pid(s: Seq<WindowInfoView>, pid: u64) -> bool {
    exists|i: int| 0 <= i < s.len() && s[i].pid == pid
}

/// The mathematical value of a window snapshot.
pub open spec fn windows_view(s: Seq<WindowInfo>) -> Seq<WindowInfoView> {
    s.map_values(|w: WindowInfo| w@)
}

/// The close events of one tick: one `Closed` event, in snapshot order, for
/// each window of the previous snapshot whose process is absent from the
/// current one.
pub open spec fn closed_events(prev: Seq<WindowInfoView>, curr: Seq<WindowInfoView>) -> Seq<
    GameEventView,
>
    decreases prev.len(),
{
    if prev.len() == 0 {
        Seq::empty()
    } else {
        closed_events(prev.drop_last(), curr) + if has_pid(curr, prev.last().pid) {
            Seq::empty()
        } else {
            seq![GameEventView::Closed(prev.last())]
        }
    }
}

/// The open events of one tick: one `Opened` event, in snapshot order and
/// carrying the window's classification, for each window of the current
/// snapshot whose process is absent from the previous one.
pub open spec fn opened_events(
    prev: Seq<WindowInfoView>,
    curr: Seq<WindowInfoView>,
    catalog: Seq<Root2View>,
) -> Seq<GameEventView>
    decreases curr.len(),
{
    if curr.len() == 0 {
        Seq::empty()
    } else {
        opened_events(prev, curr.drop_last(), catalog) + if has_pid(prev, curr.last().pid) {
            Seq::empty()
        } else {
            seq![GameEventView::Opened(classify(curr.last(), catalog), curr.last())]
        }
    }
}

/// All the events of one tick: the close events, then the open events.
pub open spec fn tick_events(
    prev: Seq<WindowInfoView>,
    curr: Seq<WindowInfoView>,
    catalog: Seq<Root2View>,
) -> Seq<GameEventView> {
    closed_events(prev, curr) + opened_events(prev, curr, catalog)
}

fn has_pid_exec(s: &Vec<WindowInfo>, pid: u64) -> (r: bool)
    ensures
        r == has_pid(windows_view(s@), pid),
{
    let mut i: usize = 0;
    while i < s.len()
        invariant
            i <= s@.len(),
            forall|j: int| 0 <= j < i ==> windows_view(s@)[j].pid != pid,
        decreases s@.len() - i,
    {
        if s[i].pid == pid {
            proof {
                assert(windows_view(s@)[i as int].pid == pid);
            }
            return true;
        }
        i = i + 1;
    }
    false
}

/// A handle to one registered listener; its key identifies the registration
/// in the engine's registry.
#[derive(Clone, Copy, Debug, PartialEq, Eq, Structural)]
pub struct ListenerRef {
    pub key: u64,
}

/// A guard around a listener handle; the surrounding application schedules
/// the listener's removal when it drops the guard.
#[derive(Clone, Copy, Debug, PartialEq, Eq, Structural)]
pub struct ListenerDropGuard(pub ListenerRef);

impl ListenerRef {
    /// Removes this listener from the registry at once.
    pub fn remove(self, detection: &mut GameDetection)
        requires
            old(detection).wf(),
        ensures
            final(detection).wf(),
            !final(detection).listeners@.contains(self.key),
            forall|x: u64|
                x != self.key
                    ==> (final(detection).listeners@.contains(x) <==> old(
                    detection,
                ).listeners@.contains(x)),
            final(detection).game_detection == old(detection).game_detection,
            final(detection).prev == old(detection).prev,
            final(detection).pending_removals == old(detection).pending_removals,
            final(detection).next_listener_id == old(detection).next_listener_id,
            final(detection).issued == old(detection).issued,
    {
        detection.remove_listener(self.key);
    }

    /// Wraps this handle in a drop guard.
    pub fn drop_guard(self) -> (r: ListenerDropGuard)
        ensures
            r.0 == self,
    {
        ListenerDropGuard(self)
    }
}

/// The detection engine's state: the cached catalog, the previous window
/// snapshot, and the listener registry. The surrounding application drives
/// it: a poll loop hands it fresh snapshots, a refresh loop replaces the
/// catalog, and listener callbacks are invoked in the order this state
/// prescribes.
pub struct GameDetection {
    pub game_detection: Vec<Root2>,
    pub prev: Vec<WindowInfo>,
    pub listeners: Vec<u64>,
    pub next_listener_id: u64,
    pub pending_removals: Vec<u64>,
    /// Every key ever handed out, in order; ghost, for the registry's
    /// process-lifetime uniqueness.
    pub issued: Ghost<Seq<u64>>,
}

impl GameDetection {
    /// Listener keys are pairwise distinct and below the next key to be
    /// handed out — registered ones and every key ever handed out alike, so
    /// a key is unique for the lifetime of the registry.
    pub open spec fn wf(&self) -> bool {
        &&& forall|i: int, j: int|
            0 <= i < j < self.listeners@.len() ==> self.listeners@[i] != self.listeners@[j]
        &&& forall|i: int|
            0 <= i < self.listeners@.len() ==> #[trigger] self.listeners@[i]
                < self.next_listener_id
        &&& forall|i: int, j: int|
            0 <= i < j < self.issued@.len() ==> self.issued@[i] != self.issued@[j]
        &&& forall|i: int|
            0 <= i < self.issued@.len() ==> #[trigger] self.issued@[i] < self.next_listener_id
    }

    /// A fresh engine over a catalog: an empty previous snapshot, so that the
    /// first tick reports every visible window as opened, and no listeners.
    pub fn initialize(catalog: Vec<Root2>) -> (r: Self)
        ensures
            r.wf(),
            r.game_detection == catalog,
            r.prev@.len() == 0,
            r.listeners@.len() == 0,
            r.pending_removals@.len() == 0,
    {
        GameDetection {
            game_detection: catalog,
            prev: Vec::new(),
            listeners: Vec::new(),
            next_listener_id: 0,
            pending_removals: Vec::new(),
            issued: Ghost(Seq::empty()),
        }
    }

    /// Replaces the catalog after a refresh.
    pub fn set_catalog(&mut self, catalog: Vec<Root2>)
        ensures
            final(self).game_detection == catalog,
            final(self).prev == old(self).prev,
            final(self).listeners == old(self).listeners,
            final(self).next_listener_id == old(self).next_listener_id,
            final(self).pending_removals == old(self).pending_removals,
            final(self).issued == old(self).issued,
    {
        self.game_detection = catalog;
    }

    /// Registers a listener under a fresh key and hands back its handle.
    /// The key has never been handed out before.
    pub fn add_listener(&mut self) -> (r: ListenerRef)
        requires
            old(self).wf(),
            old(self).next_listener_id < u64::MAX,
        ensures
            final(self).wf(),
            r.key == old(self).next_listener_id,
            !old(self).listeners@.contains(r.key),
            final(self).listeners@ == old(self).listeners@.push(r.key),
            final(self).next_listener_id == old(self).next_listener_id + 1,
            final(self).issued@ == old(self).issued@.push(r.key),
            !old(self).issued@.contains(r.key),
            final(self).game_detection == old(self).game_detection,
            final(self).prev == old(self).prev,
            final(self).pending_removals == old(self).pending_removals,
    {
        let key = self.next_listener_id;
        self.listeners.push(key);
        self.next_listener_id = self.next_listener_id + 1;
        proof {
            self.issued@ = self.issued@.push(key);
            if old(self).issued@.contains(key) {
                let i = choose|i: int|
                    0 <= i < old(self).issued@.len() && old(self).issued@[i] == key;
                assert(old(self).issued@[i] < old(self).next_listener_id);
            }
        }
        ListenerRef { key }
    }

    /// Removes the listener under `key` from the registry. Removal is
    /// idempotent: without a registration under `key` the registry is left
    /// as it stands.
    pub fn remove_listener(&mut self, key: u64)
        requires
            old(self).wf(),
        ensures
            final(self).wf(),
            !final(self).listeners@.contains(key),
            forall|x: u64|
                x != key
                    ==> (final(self).listeners@.contains(x) <==> old(self).listeners@.contains(x)),
            !old(self).listeners@.contains(key) ==> final(self).listeners == old(self).listeners,
            final(self).game_detection == old(self).game_detection,
            final(self).prev == old(self).prev,
            final(self).pending_removals == old(self).pending_removals,
            final(self).next_listener_id == old(self).next_listener_id,
            final(self).issued == old(self).issued,
    {
        let mut i: usize = 0;
        while i < self.listeners.len()
            invariant
                old(self).wf(),
                *self == *old(self),
                i <= self.listeners@.len(),
                forall|j: int| 0 <= j < i ==> self.listeners@[j] != key,
            decreases self.listeners@.len() - i,
        {
            if self.listeners[i] == key {
                self.listeners.remove(i);
                proof {
                    let ol = old(self).listeners@;
                    assert(forall|j: int|
                        0 <= j < self.listeners@.len() ==> self.listeners@[j] == (if j < i {
                            ol[j]
                        } else {
                            ol[j + 1]
                        }));
                    assert forall|x: u64|
                        x != key && old(self).listeners@.contains(x) implies self
                        .listeners@.contains(x) by {
                        let j = choose|j: int| 0 <= j < ol.len() && ol[j] == x;
                        if j < i {
                            assert(self.listeners@[j] == x);
                        } else {
                            assert(j != i);
                            assert(self.listeners@[j - 1] == x);
                        }
                    };
                }
                return ;
            }
            i = i + 1;
        }
        proof {
            assert(forall|j: int|
                0 <= j < self.listeners@.len() ==> self.listeners@[j] != key);
        }
    }

    /// Notes a listener key for later removal, as the drop of a listener
    /// guard does.
    pub fn schedule_removal(&mut self, key: u64)
        ensures
            final(self).pending_removals@ == old(self).pending_removals@.push(key),
            final(self).listeners == old(self).listeners,
            final(self).game_detection == old(self).game_detection,
            final(self).prev == old(self).prev,
            final(self).next_listener_id == old(self).next_listener_id,
            final(self).issued == old(self).issued,
    {
        self.pending_removals.push(key);
    }

    /// Carries out every scheduled removal. Afterwards none of the scheduled
    /// keys is registered, and every other registration is untouched.
    pub fn process_removals(&mut self)
        requires
            old(self).wf(),
        ensures
            final(self).wf(),
            final(self).pending_removals@.len() == 0,
            forall|j: int|
                0 <= j < old(self).pending_removals@.len()
                    ==> !final(self).listeners@.contains(
                    #[trigger] old(self).pending_removals@[j],
                ),
            forall|x: u64|
                !old(self).pending_removals@.contains(x)
                    ==> (final(self).listeners@.contains(x) <==> old(self).listeners@.contains(x)),
            final(self).game_detection == old(self).game_detection,
            final(self).prev == old(self).prev,
            final(self).next_listener_id == old(self).next_listener_id,
            final(self).issued == old(self).issued,
    {
        let ghost pending = old(self).pending_removals@;
        let mut i: usize = 0;
        while i < self.pending_removals.len()
            invariant
                self.wf(),
                self.pending_removals@ == pending,
                i <= pending.len(),
                forall|j: int| 0 <= j < i ==> !self.listeners@.contains(#[trigger] pending[j]),
                forall|x: u64|
                    !pending.contains(x)
                        ==> (self.listeners@.contains(x) <==> old(self).listeners@.contains(x)),
                self.game_detection == old(self).game_detection,
                self.prev == old(self).prev,
                self.next_listener_id == old(self).next_listener_id,
                self.issued == old(self).issued,
            decreases pending.len() - i,
        {
            let key = self.pending_removals[i];
            self.remove_listener(key);
            proof {
                assert(pending.contains(pending[i as int]));
            }
            i = i + 1;
        }
        self.pending_removals.clear();
    }

    /// The events of one poll tick against the previous snapshot: close
    /// events for vanished processes, then open events, with their
    /// classification, for new ones. The given snapshot replaces the stored
    /// previous snapshot.
    pub fn poll_tick(&mut self, windows: Vec<WindowInfo>) -> (events: Vec<GameEvent>)
        ensures
            events_view(events@) == tick_events(
                windows_view(old(self).prev@),
                windows_view(windows@),
                catalog_view(old(self).game_detection@),
            ),
            final(self).prev == windows,
            final(self).game_detection == old(self).game_detection,
            final(self).listeners == old(self).listeners,
            final(self).next_listener_id == old(self).next_listener_id,
            final(self).pending_removals == old(self).pending_removals,
            final(self).issued == old(self).issued,
    {
        let ghost prev_v = windows_view(old(self).prev@);
        let ghost curr_v = windows_view(windows@);
        let ghost cat_v = catalog_view(old(self).game_detection@);
        let mut events: Vec<GameEvent> = Vec::new();
        let mut i: usize = 0;
        while i < self.prev.len()
            invariant
                *self == *old(self),
                i <= self.prev@.len(),
                prev_v == windows_view(self.prev@),
                curr_v == windows_view(windows@),
                events_view(events@) == closed_events(prev_v.take(i as int), curr_v),
            decreases self.prev@.len() - i,
        {
            proof {
                assert(prev_v.take(i + 1).drop_last() =~= prev_v.take(i as int));
                assert(prev_v.take(i + 1).last() == self.prev@[i as int]@);
            }
            if !has_pid_exec(&windows, self.prev[i].pid) {
                let w = self.prev[i].clone();
                events.push(GameEvent::Closed(w));
                proof {
                    assert(events_view(events@) =~= closed_events(prev_v.take(i as int), curr_v)
                        + seq![GameEventView::Closed(self.prev@[i as int]@)]);
                }
            } else {
                proof {
                    assert(events_view(events@) =~= closed_events(prev_v.take(i as int), curr_v)
                        + Seq::<GameEventView>::empty());
                }
            }
            i = i + 1;
        }
        proof {
            assert(prev_v.take(prev_v.len() as int) =~= prev_v);
        }
        let mut k: usize = 0;
        while k < windows.len()
            invariant
                *self == *old(self),
                k <= windows@.len(),
                prev_v == windows_view(self.prev@),
                curr_v == windows_view(windows@),
                cat_v == catalog_view(self.game_detection@),
                events_view(events@) == closed_events(prev_v, curr_v) + opened_events(
                    prev_v,
                    curr_v.take(k as int),
                    cat_v,
                ),
            decreases windows@.len() - k,
        {
            proof {
                assert(curr_v.take(k + 1).drop_last() =~= curr_v.take(k as int));
                assert(curr_v.take(k + 1).last() == windows@[k as int]@);
            }
            if !has_pid_exec(&self.prev, windows[k].pid) {
                let t = get_window_type(&windows[k], &self.game_detection);
                let w = windows[k].clone();
                events.push(GameEvent::Opened(t, w));
                proof {
                    assert(events_view(events@) =~= closed_events(prev_v, curr_v)
                        + opened_events(prev_v, curr_v.take(k as int), cat_v)
                        + seq![GameEventView::Opened(classify(windows@[k as int]@, cat_v), windows@[k as int]@)]);
                }
            } else {
                proof {
                    assert(events_view(events@) =~= closed_events(prev_v, curr_v)
                        + opened_events(prev_v, curr_v.take(k as int), cat_v)
                        + Seq::<GameEventView>::empty());
                }
            }
            k = k + 1;
        }
        proof {
            assert(curr_v.take(curr_v.len() as int) =~= curr_v);
        }
        self.prev = windows;
        events
    }
}

/// The mathematical value of a delivery plan.
pub open spec fn plan_view(s: Seq<(u64, GameEvent)>) -> Seq<(u64, GameEventView)> {
    s.map_values(|p: (u64, GameEvent)| (p.0, p.1@))
}

/// One event handed to every listener, in registration order.
pub open spec fn pairs_for(listeners: Seq<u64>, e: GameEventView) -> Seq<(u64, GameEventView)>
    decreases listeners.len(),
{
    if listeners.len() == 0 {
        Seq::empty()
    } else {
        pairs_for(listeners.drop_last(), e).push((listeners.last(), e))
    }
}

/// Every pair of [`pairs_for`] names the listener at its own position.
pub proof fn lemma_pairs_for_index(listeners: Seq<u64>, e: GameEventView)
    ensures
        pairs_for(listeners, e).len() == listeners.len(),
        forall|k: int|
            0 <= k < listeners.len() ==> #[trigger] pairs_for(listeners, e)[k] == (
                listeners[k],
                e,
            ),
    decreases listeners.len(),
{
    if listeners.len() > 0 {
        lemma_pairs_for_index(listeners.drop_last(), e);
    }
}

/// The notification order for a tick's events: every event, in emission
/// order, is handed to every registered listener, in registration order, and
/// each callback is awaited before the next pair is taken up.
pub open spec fn deliveries(listeners: Seq<u64>, events: Seq<GameEventView>) -> Seq<
    (u64, GameEventView),
>
    decreases events.len(),
{
    if events.len() == 0 {
        Seq::empty()
    } else {
        deliveries(listeners, events.drop_last()) + pairs_for(listeners, events.last())
    }
}

impl GameDetection {
    /// Lays out the serialized notification order for a tick's events: each
    /// event goes to every registered listener, events in emission order,
    /// listeners in registration order.
    pub fn delivery_plan(&self, events: &Vec<GameEvent>) -> (plan: Vec<(u64, GameEvent)>)
        ensures
            plan_view(plan@) == deliveries(self.listeners@, events_view(events@)),
    {
        let ghost ls = self.listeners@;
        let ghost es = events_view(events@);
        let mut plan: Vec<(u64, GameEvent)> = Vec::new();
        let mut i: usize = 0;
        while i < events.len()
            invariant
                i <= events@.len(),
                ls == self.listeners@,
                es == events_view(events@),
                plan_view(plan@) == deliveries(ls, es.take(i as int)),
            decreases events@.len() - i,
        {
            proof {
                assert(es.take(i + 1).drop_last() =~= es.take(i as int));
                assert(es.take(i + 1).last() == events@[i as int]@);
            }
            let mut j: usize = 0;
            while j < self.listeners.len()
                invariant
                    0 <= i < events@.len(),
                    j <= self.listeners@.len(),
                    ls == self.listeners@,
                    es == events_view(events@),
                    plan_view(plan@) == deliveries(ls, es.take(i as int)) + pairs_for(
                        ls.take(j as int),
                        es[i as int],
                    ),
                decreases self.listeners@.len() - j,
            {
                let key = self.listeners[j];
                let ev = events[i].clone();
                let ghost p0 = plan@;
                let ghost evv = ev@;
                plan.push((key, ev));
                proof {
                    assert(evv == es[i as int]);
                    assert(key == ls[j as int]);
                    assert(ls.take(j + 1).drop_last() =~= ls.take(j as int));
                    assert(ls.take(j + 1).last() == ls[j as int]);
                    assert(pairs_for(ls.take(j + 1), es[i as int]) == pairs_for(
                        ls.take(j as int),
                        es[i as int],
                    ).push((ls[j as int], es[i as int])));
                    assert(plan_view(plan@) =~= plan_view(p0).push((key, evv)));
                    assert(deliveries(ls, es.take(i as int)) + pairs_for(
                        ls.take(j + 1),
                        es[i as int],
                    ) =~= (deliveries(ls, es.take(i as int)) + pairs_for(
                        ls.take(j as int),
                        es[i as int],
                    )).push((ls[j as int], es[i as int])));
                    assert(plan_view(plan@) == deliveries(ls, es.take(i as int)) + pairs_for(
                        ls.take(j + 1),
                        es[i as int],
                    ));
                }
                j = j + 1;
            }
            proof {
                assert(ls.take(ls.len() as int) =~= ls);
            }
            i = i + 1;
        }
        proof {
            assert(es.take(es.len() as int) =~= es);
        }
        plan
    }
}

/// A listener that is no longer registered is never notified: no pair of the
/// delivery plan names its key.
pub proof fn lemma_removed_listener_never_notified(
    listeners: Seq<u64>,
    events: Seq<GameEventView>,
    key: u64,
)
    requires
        !listeners.contains(key),
    ensures
        forall|k: int|
            0 <= k < deliveries(listeners, events).len() ==> #[trigger] deliveries(
                listeners,
                events,
            )[k].0 != key,
    decreases events.len(),
{
    if events.len() > 0 {
        lemma_removed_listener_never_notified(listeners, events.drop_last(), key);
        lemma_pairs_for_index(listeners, events.last());
        assert forall|k: int|
            0 <= k < deliveries(listeners, events).len() implies #[trigger] deliveries(
            listeners,
            events,
        )[k].0 != key by {
            let d = deliveries(listeners, events);
            let dprev = deliveries(listeners, events.drop_last());
            let pairs = pairs_for(listeners, events.last());
            if k >= dprev.len() {
                assert(d[k] == pairs[k - dprev.len()]);
                assert(pairs[k - dprev.len()].0 == listeners[k - dprev.len()]);
                assert(listeners.contains(listeners[k - dprev.len()]));
            }
        };
    }
}

/// The one coupling between detection and capture: an `Opened` event
/// classified as a game asks for a capture-source switch to its window;
/// every other event asks for nothing.
pub fn capture_switch_target(event: &GameEvent) -> (r: Option<&WindowInfo>)
    ensures
        (match event@ {
            GameEventView::Opened(t, w) => {
                if t == WindowType::Game {
                    r matches Some(x) && x@ == w
                } else {
                    r is None
                }
            },
            GameEventView::Closed(_) => r is None,
        }),
{
    match event {
        GameEvent::Opened(WindowType::Game, w) => Some(w),
        _ => None,
    }
}

/// Every close event of a tick is the `Closed` of a window of the previous
/// snapshot whose process is absent from the current one.
pub proof fn lemma_closed_events_only_vanished(prev: Seq<WindowInfoView>, curr: Seq<WindowInfoView>)
    ensures
        forall|k: int|
            0 <= k < closed_events(prev, curr).len() ==> ((#[trigger] closed_events(prev, curr)[k])
                matches GameEventView::Closed(w) && has_pid(prev, w.pid) && !has_pid(curr, w.pid)),
    decreases prev.len(),
{
    if prev.len() > 0 {
        lemma_closed_events_only_vanished(prev.drop_last(), curr);
        assert forall|pid: u64| has_pid(prev.drop_last(), pid) implies has_pid(prev, pid) by {
            let i = choose|i: int| 0 <= i < prev.drop_last().len() && prev.drop_last()[i].pid
                == pid;
            assert(prev[i].pid == pid);
        };
        if !has_pid(curr, prev.last().pid) {
            assert(prev[prev.len() - 1].pid == prev.last().pid);
        }
    }
}

/// Every open event of a tick is the `Opened` of a window of the current
/// snapshot whose process is absent from the previous one, carrying that
/// window's classification.
pub proof fn lemma_opened_events_only_new(
    prev: Seq<WindowInfoView>,
    curr: Seq<WindowInfoView>,
    catalog: Seq<Root2View>,
)
    ensures
        forall|k: int|
            0 <= k < opened_events(prev, curr, catalog).len() ==> ((#[trigger] opened_events(
                prev,
                curr,
                catalog,
            )[k]) matches GameEventView::Opened(t, w) && has_pid(curr, w.pid) && !has_pid(
                prev,
                w.pid,
            ) && t == classify(w, catalog)),
    decreases curr.len(),
{
    if curr.len() > 0 {
        lemma_opened_events_only_new(prev, curr.drop_last(), catalog);
        assert forall|pid: u64| has_pid(curr.drop_last(), pid) implies has_pid(curr, pid) by {
            let i = choose|i: int| 0 <= i < curr.drop_last().len() && curr.drop_last()[i].pid
                == pid;
            assert(curr[i].pid == pid);
        };
        if !has_pid(prev, curr.last().pid) {
            assert(curr[curr.len() - 1].pid == curr.last().pid);
        }
    }
}

/// A tick never emits an event for a window whose process is present in both
/// the previous and the current snapshot.
pub proof fn lemma_steady_window_no_event(
    prev: Seq<WindowInfoView>,
    curr: Seq<WindowInfoView>,
    catalog: Seq<Root2View>,
    pid: u64,
)
    requires
        has_pid(prev, pid),
        has_pid(curr, pid),
    ensures
        forall|k: int|
            0 <= k < tick_events(prev, curr, catalog).len() ==> (match (#[trigger] tick_events(
                prev,
                curr,
                catalog,
            )[k]) {
                GameEventView::Closed(w) => w.pid != pid,
                GameEventView::Opened(_t, w) => w.pid != pid,
            }),
{
    lemma_closed_events_only_vanished(prev, curr);
    lemma_opened_events_only_new(prev, curr, catalog);
}

/// A window classifies as a game as soon as one catalog entry holds an
/// executable without a required argument whose lower-cased name closes the
/// canonical form of the window's path; the style of the path's separators
/// and the case of either name cannot change that, since both sides are
/// canonicalised first.
pub proof fn lemma_suffix_match_classifies_game(
    w: WindowInfoView,
    catalog: Seq<Root2View>,
    i: int,
    j: int,
)
    requires
        0 <= i < catalog.len(),
        0 <= j < catalog[i].executables.len(),
        catalog[i].executables[j].arguments is None,
        ends_with_seq(canon_path_seq(w.full_exe), lower_seq(catalog[i].executables[j].name)),
    ensures
        classify(w, catalog) == WindowType::Game,
{
    assert(exe_matches(w, catalog[i].executables[j]));
    assert(entry_matches(w, catalog[i]));
}

/// Classification sees only the canonical form of the window's path and the
/// lower-cased command line: two windows that agree there classify alike
/// against every catalog.
pub proof fn lemma_classify_canonical(
    w1: WindowInfoView,
    w2: WindowInfoView,
    catalog: Seq<Root2View>,
)
    requires
        canon_path_seq(w1.full_exe) == canon_path_seq(w2.full_exe),
        (match (w1.cmd_line, w2.cmd_line) {
            (Some(a), Some(b)) => lower_seq(a) == lower_seq(b),
            (None, None) => true,
            _ => false,
        }),
    ensures
        classify(w1, catalog) == classify(w2, catalog),
{
    assert forall|i: int, j: int|
        0 <= i < catalog.len() && 0 <= j < catalog[i].executables.len() implies (exe_matches(
        w1,
        #[trigger] catalog[i].executables[j],
    ) == exe_matches(w2, catalog[i].executables[j])) by {};
    if is_game(w1, catalog) {
        let i = choose|i: int| 0 <= i < catalog.len() && entry_matches(w1, #[trigger] catalog[i]);
        let j = choose|j: int|
            0 <= j < catalog[i].executables.len() && exe_matches(
                w1,
                #[trigger] catalog[i].executables[j],
            );
        assert(exe_matches(w2, catalog[i].executables[j]));
        assert(entry_matches(w2, catalog[i]));
    }
    if is_game(w2, catalog) {
        let i = choose|i: int| 0 <= i < catalog.len() && entry_matches(w2, #[trigger] catalog[i]);
        let j = choose|j: int|
            0 <= j < catalog[i].executables.len() && exe_matches(
                w2,
                #[trigger] catalog[i].executables[j],
            );
        assert(exe_matches(w1, catalog[i].executables[j]));
        assert(entry_matches(w1, catalog[i]));
    }
}

/// An executable that requires an argument substring does not match a window
/// whose command line lacks it, even when the executable name matches the
/// path.
pub proof fn lemma_argument_requirement_blocks_match(w: WindowInfoView, e: ExecutableView)
    requires
        e.arguments matches Some(a) && !(w.cmd_line matches Some(c) && contains_seq(
            lower_seq(c),
            lower_seq(a),
        )),
    ensures
        !exe_matches(w, e),
{
}

/// An entry that does not match a window leaves the classification to the
/// remaining entries: dropping it from the catalog changes nothing.
pub proof fn lemma_non_matching_entry_falls_through(
    w: WindowInfoView,
    catalog: Seq<Root2View>,
    i: int,
)
    requires
        0 <= i < catalog.len(),
        !entry_matches(w, catalog[i]),
    ensures
        classify(w, catalog) == classify(w, catalog.remove(i)),
{
    let rest = catalog.remove(i);
    if is_game(w, catalog) {
        let k = choose|k: int| 0 <= k < catalog.len() && entry_matches(w, #[trigger] catalog[k]);
        assert(k != i);
        if k < i {
            assert(rest[k] == catalog[k]);
            assert(entry_matches(w, rest[k]));
        } else {
            assert(rest[k - 1] == catalog[k]);
            assert(entry_matches(w, rest[k - 1]));
        }
    }
    if is_game(w, rest) {
        let k = choose|k: int| 0 <= k < rest.len() && entry_matches(w, #[trigger] rest[k]);
        if k < i {
            assert(rest[k] == catalog[k]);
            assert(entry_matches(w, catalog[k]));
        } else {
            assert(rest[k] == catalog[k + 1]);
            assert(entry_matches(w, catalog[k + 1]));
        }
    }
}

} // verus!
