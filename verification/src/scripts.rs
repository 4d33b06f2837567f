//! Initialization scripts that run in every frame of a browser.
//!
//! The browser process packs the scripts into the extra information that a new
//! browser is created with. The render process unpacks them when it learns of the
//! browser, keeps them for as long as a browser of that identifier lives, and
//! evaluates them in each child frame.

use crate::shared::share;
use std::collections::HashMap;
use std::sync::Arc;
use vstd::prelude::*;

verus! {

broadcast use vstd::std_specs::hash::group_hash_axioms;

/// The key under which the extra information holds the list of scripts.
pub const ALL_FRAME_INITIALIZATION_SCRIPTS_KEY: &'static str =
    "tauri:all-frame-initialization-scripts";

/// The URL under which an initialization script is evaluated.
pub const INITIALIZATION_SCRIPT_URL: &'static str = "tauri://initialization-script";

/// What the extra information of a browser holds under
/// `ALL_FRAME_INITIALIZATION_SCRIPTS_KEY`, if it holds a list there.
pub struct ExtraInfo {
    pub scripts: Option<Vec<String>>,
}

/// The scripts of the browsers of one identifier.
///
/// CEF creates a replacement browser with the same identifier before it destroys
/// the old one during cross-origin navigation, so cleanup follows browser
/// instances rather than identifiers: `active_browser_count` counts them.
#[derive(Debug)]
pub struct BrowserInitializationScriptState {
    pub active_browser_count: usize,
    pub scripts: Arc<Vec<String>>,
}

/// The texts of a list of scripts.
pub open spec fn texts(scripts: Seq<String>) -> Seq<Seq<char>> {
    scripts.map_values(|script: String| script@)
}

/// Whether `extra_info` is what `scripts` are packed into: nothing where there are
/// none, else their texts in their order.
pub open spec fn is_packed(scripts: Seq<&str>, extra_info: Option<ExtraInfo>) -> bool {
    match extra_info {
        None => scripts.len() == 0,
        Some(info) => {
            &&& scripts.len() > 0
            &&& info.scripts is Some
            &&& texts(info.scripts->0@) == scripts.map_values(|script: &str| script@)
        },
    }
}

/// Packs the scripts for a new browser; without any there is nothing to pack.
pub fn initialization_scripts_extra_info(scripts: &Vec<&str>) -> (extra_info: Option<ExtraInfo>)
    ensures
        is_packed(scripts@, extra_info),
{
    if scripts.len() == 0 {
        return None;
    }
    let mut list: Vec<String> = Vec::new();
    let mut index: usize = 0;
    while index < scripts.len()
        invariant
            index <= scripts@.len(),
            texts(list@) =~= scripts@.take(index as int).map_values(|script: &str| script@),
        decreases scripts@.len() - index,
    {
        let ghost before = list@;
        let script = scripts[index].to_owned();
        list.push(script);
        assert(texts(list@) =~= texts(before).push(scripts@[index as int]@));
        index += 1;
    }
    assert(scripts@.take(index as int) =~= scripts@);
    Some(ExtraInfo { scripts: Some(list) })
}

/// The scripts that the extra information of a browser brings.
pub open spec fn scripts_of(extra_info: Option<ExtraInfo>) -> Seq<String> {
    match extra_info {
        Some(info) => match info.scripts {
            Some(scripts) => scripts@,
            None => Seq::empty(),
        },
        None => Seq::empty(),
    }
}

/// Unpacks the scripts of a new browser; where there is no extra information, or
/// no list in it, there are none.
pub fn initialization_scripts_from_extra_info(extra_info: Option<ExtraInfo>) -> (scripts: Arc<
    Vec<String>,
>)
    ensures
        scripts@ == scripts_of(extra_info),
{
    let scripts: Vec<String> = match extra_info {
        Some(info) => match info.scripts {
            Some(scripts) => scripts,
            None => Vec::new(),
        },
        None => Vec::new(),
    };
    assert(scripts@ =~= scripts_of(extra_info));
    Arc::new(scripts)
}

/// What was packed comes out again: the same scripts in the same order.
pub proof fn law_scripts_survive_packing(scripts: Seq<&str>, extra_info: Option<ExtraInfo>)
    requires
        is_packed(scripts, extra_info),
    ensures
        texts(scripts_of(extra_info)) == scripts.map_values(|script: &str| script@),
{
    if scripts.len() == 0 {
        assert(texts(scripts_of(extra_info)) =~= scripts.map_values(|script: &str| script@));
    }
}

/// The scripts by identifier after a browser was created under `browser_identifier`
/// with `scripts`: one more browser is counted for an identifier that is known, and
/// scripts replace those it had; an identifier that is not known is entered if there
/// are scripts.
pub open spec fn registered(
    entries: Map<i32, BrowserInitializationScriptState>,
    browser_identifier: i32,
    scripts: Arc<Vec<String>>,
) -> Map<i32, BrowserInitializationScriptState> {
    if entries.contains_key(browser_identifier) {
        let entry = entries[browser_identifier];
        entries.insert(
            browser_identifier,
            BrowserInitializationScriptState {
                active_browser_count: (entry.active_browser_count + 1) as usize,
                scripts: if scripts@.len() > 0 {
                    scripts
                } else {
                    entry.scripts
                },
            },
        )
    } else if scripts@.len() > 0 {
        entries.insert(
            browser_identifier,
            BrowserInitializationScriptState { active_browser_count: 1, scripts },
        )
    } else {
        entries
    }
}

/// The scripts by identifier after a browser of `browser_identifier` was destroyed:
/// one browser less is counted, and with the last one the entry goes.
pub open spec fn unregistered(
    entries: Map<i32, BrowserInitializationScriptState>,
    browser_identifier: i32,
) -> Map<i32, BrowserInitializationScriptState> {
    if entries.contains_key(browser_identifier) {
        let entry = entries[browser_identifier];
        if entry.active_browser_count > 1 {
            entries.insert(
                browser_identifier,
                BrowserInitializationScriptState {
                    active_browser_count: (entry.active_browser_count - 1) as usize,
                    ..entry
                },
            )
        } else {
            entries.remove(browser_identifier)
        }
    } else {
        entries
    }
}

/// Whether one more browser of `browser_identifier` can be counted.
pub open spec fn can_register(
    entries: Map<i32, BrowserInitializationScriptState>,
    browser_identifier: i32,
) -> bool {
    entries.contains_key(browser_identifier) ==> entries[browser_identifier].active_browser_count
        < usize::MAX
}

/// Whether every entry has a browser and scripts.
pub open spec fn well_formed(entries: Map<i32, BrowserInitializationScriptState>) -> bool {
    forall|id: i32| #[trigger]
        entries.contains_key(id) ==> entries[id].active_browser_count >= 1
            && entries[id].scripts@.len() > 0
}

/// Enters a browser that was created.
pub fn register_browser_initialization_scripts(
    browser_initialization_scripts: &mut HashMap<i32, BrowserInitializationScriptState>,
    browser_identifier: i32,
    scripts: Arc<Vec<String>>,
)
    requires
        can_register(old(browser_initialization_scripts)@, browser_identifier),
    ensures
        final(browser_initialization_scripts)@ == registered(
            old(browser_initialization_scripts)@,
            browser_identifier,
            scripts,
        ),
        well_formed(old(browser_initialization_scripts)@) ==> well_formed(
            final(browser_initialization_scripts)@,
        ),
{
    match browser_initialization_scripts.remove(&browser_identifier) {
        Some(state) => {
            let kept: Arc<Vec<String>> = if scripts.len() > 0 {
                scripts
            } else {
                state.scripts
            };
            browser_initialization_scripts.insert(
                browser_identifier,
                BrowserInitializationScriptState {
                    active_browser_count: state.active_browser_count + 1,
                    scripts: kept,
                },
            );
        },
        None => {
            if scripts.len() > 0 {
                browser_initialization_scripts.insert(
                    browser_identifier,
                    BrowserInitializationScriptState { active_browser_count: 1, scripts },
                );
            }
        },
    }
    assert(browser_initialization_scripts@ =~= registered(
        old(browser_initialization_scripts)@,
        browser_identifier,
        scripts,
    ));
}

/// Takes out a browser that was destroyed.
pub fn unregister_browser_initialization_scripts(
    browser_initialization_scripts: &mut HashMap<i32, BrowserInitializationScriptState>,
    browser_identifier: i32,
)
    ensures
        final(browser_initialization_scripts)@ == unregistered(
            old(browser_initialization_scripts)@,
            browser_identifier,
        ),
        well_formed(old(browser_initialization_scripts)@) ==> well_formed(
            final(browser_initialization_scripts)@,
        ),
{
    if let Some(state) = browser_initialization_scripts.remove(&browser_identifier) {
        if state.active_browser_count > 1 {
            browser_initialization_scripts.insert(
                browser_identifier,
                BrowserInitializationScriptState {
                    active_browser_count: state.active_browser_count - 1,
                    scripts: state.scripts,
                },
            );
        }
    }
    assert(browser_initialization_scripts@ =~= unregistered(
        old(browser_initialization_scripts)@,
        browser_identifier,
    ));
}

/// The scripts of the browsers of `browser_identifier`, if there are any.
pub fn scripts_for_browser(
    browser_initialization_scripts: &HashMap<i32, BrowserInitializationScriptState>,
    browser_identifier: i32,
) -> (scripts: Option<Arc<Vec<String>>>)
    ensures
        scripts == if browser_initialization_scripts@.contains_key(browser_identifier) {
            Some(browser_initialization_scripts@[browser_identifier].scripts)
        } else {
            None
        },
{
    match browser_initialization_scripts.get(&browser_identifier) {
        Some(state) => Some(share(&state.scripts)),
        None => None,
    }
}

/// What the render process does for the browsers that it learns of.
pub struct TauriRenderProcessHandler {
    pub browser_initialization_scripts: HashMap<i32, BrowserInitializationScriptState>,
}

/// What is to be done in a new script context.
pub struct ContextSetup {
    /// Whether the message channel is to be installed.
    pub install_ipc: bool,
    /// The scripts to evaluate in it, in their order.
    pub scripts: Option<Arc<Vec<String>>>,
}

impl TauriRenderProcessHandler {
    /// A handler that knows no browser yet.
    pub fn new() -> (handler: Self)
        ensures
            handler.browser_initialization_scripts@ == Map::<
                i32,
                BrowserInitializationScriptState,
            >::empty(),
            well_formed(handler.browser_initialization_scripts@),
    {
        TauriRenderProcessHandler { browser_initialization_scripts: HashMap::new() }
    }

    /// A browser was created; nothing is done where CEF names none.
    pub fn on_browser_created(&mut self, browser: Option<i32>, extra_info: Option<ExtraInfo>)
        requires
            browser matches Some(id) ==> can_register(
                old(self).browser_initialization_scripts@,
                id,
            ),
        ensures
            match browser {
                Some(id) => exists|scripts: Arc<Vec<String>>|
                    {
                        &&& scripts@ == scripts_of(extra_info)
                        &&& final(self).browser_initialization_scripts@ == #[trigger] registered(
                            old(self).browser_initialization_scripts@,
                            id,
                            scripts,
                        )
                    },
                None => final(self).browser_initialization_scripts@
                    == old(self).browser_initialization_scripts@,
            },
            well_formed(old(self).browser_initialization_scripts@) ==> well_formed(
                final(self).browser_initialization_scripts@,
            ),
    {
        if let Some(id) = browser {
            let scripts = initialization_scripts_from_extra_info(extra_info);
            register_browser_initialization_scripts(
                &mut self.browser_initialization_scripts,
                id,
                scripts,
            );
        }
    }

    /// A browser was destroyed; nothing is done where CEF names none.
    pub fn on_browser_destroyed(&mut self, browser: Option<i32>)
        ensures
            final(self).browser_initialization_scripts@ == match browser {
                Some(id) => unregistered(old(self).browser_initialization_scripts@, id),
                None => old(self).browser_initialization_scripts@,
            },
            well_formed(old(self).browser_initialization_scripts@) ==> well_formed(
                final(self).browser_initialization_scripts@,
            ),
    {
        if let Some(id) = browser {
            unregister_browser_initialization_scripts(&mut self.browser_initialization_scripts, id);
        }
    }

    /// A script context was created in the frame of a browser. `frame_is_main` is
    /// CEF's flag, zero for a child frame. The message channel is installed in every
    /// context; the scripts of the browser are evaluated in child frames only.
    pub fn on_context_created(
        &self,
        browser: Option<i32>,
        frame_is_main: Option<i32>,
        has_context: bool,
    ) -> (setup: ContextSetup)
        ensures
            setup.install_ipc == has_context,
            setup.scripts == if has_context && browser is Some && frame_is_main == Some(0i32)
                && self.browser_initialization_scripts@.contains_key(browser->0) {
                Some(self.browser_initialization_scripts@[browser->0].scripts)
            } else {
                None
            },
    {
        if !has_context {
            return ContextSetup { install_ipc: false, scripts: None };
        }
        let mut scripts: Option<Arc<Vec<String>>> = None;
        if let Some(id) = browser {
            if let Some(is_main) = frame_is_main {
                if is_main == 0 {
                    scripts = scripts_for_browser(&self.browser_initialization_scripts, id);
                }
            }
        }
        ContextSetup { install_ipc: true, scripts }
    }
}

/// What happens to the browsers of one identifier.
pub enum BrowserEvent {
    /// A browser was created with these scripts.
    Created(Arc<Vec<String>>),
    /// A browser was destroyed.
    Destroyed,
}

/// The entries after `events` happened to the browsers of `browser_identifier`.
pub open spec fn after_events(
    entries: Map<i32, BrowserInitializationScriptState>,
    browser_identifier: i32,
    events: Seq<BrowserEvent>,
) -> Map<i32, BrowserInitializationScriptState>
    decreases events.len(),
{
    if events.len() == 0 {
        entries
    } else {
        let before = after_events(entries, browser_identifier, events.drop_last());
        match events.last() {
            BrowserEvent::Created(scripts) => registered(before, browser_identifier, scripts),
            BrowserEvent::Destroyed => unregistered(before, browser_identifier),
        }
    }
}

/// How many more browsers were created than destroyed.
pub open spec fn live_browsers(events: Seq<BrowserEvent>) -> int
    decreases events.len(),
{
    if events.len() == 0 {
        0
    } else {
        live_browsers(events.drop_last()) + match events.last() {
            BrowserEvent::Created(_) => 1int,
            BrowserEvent::Destroyed => -1int,
        }
    }
}

/// The scripts that the latest browser with scripts was created with.
pub open spec fn latest_scripts(events: Seq<BrowserEvent>) -> Option<Arc<Vec<String>>>
    decreases events.len(),
{
    if events.len() == 0 {
        None
    } else {
        match events.last() {
            BrowserEvent::Created(scripts) if scripts@.len() > 0 => Some(scripts),
            _ => latest_scripts(events.drop_last()),
        }
    }
}

/// Scripts live exactly as long as their browsers: from the first browser with
/// scripts on, and while at least one browser of the identifier is left, the
/// identifier has the latest scripts and the number of its browsers; when the last
/// one is destroyed, nothing is left of it. Other identifiers are not touched.
pub proof fn law_scripts_live_with_their_browsers(
    entries: Map<i32, BrowserInitializationScriptState>,
    browser_identifier: i32,
    events: Seq<BrowserEvent>,
)
    requires
        !entries.contains_key(browser_identifier),
        0 < events.len() <= usize::MAX,
        events[0] matches BrowserEvent::Created(scripts) && scripts@.len() > 0,
        forall|n: int|
            0 < n < events.len() ==> live_browsers(#[trigger] events.take(n)) > 0,
    ensures
        ({
            let after = after_events(entries, browser_identifier, events);
            &&& 0 <= live_browsers(events) <= events.len()
            &&& after.contains_key(browser_identifier) <==> live_browsers(events) > 0
            &&& live_browsers(events) > 0 ==> {
                &&& after[browser_identifier].active_browser_count == live_browsers(events)
                &&& latest_scripts(events) == Some(after[browser_identifier].scripts)
            }
            &&& after.remove(browser_identifier) == entries
        }),
    decreases events.len(),
{
    let earlier = events.drop_last();
    let before = after_events(entries, browser_identifier, earlier);
    let after = after_events(entries, browser_identifier, events);
    if events.len() == 1 {
        assert(live_browsers(earlier) == 0);
        assert(before == entries);
        assert(events.last() == events[0]);
    } else {
        assert(earlier[0] == events[0]);
        assert forall|n: int| 0 < n < earlier.len() implies live_browsers(
            #[trigger] earlier.take(n),
        ) > 0 by {
            assert(earlier.take(n) =~= events.take(n));
        }
        assert(events.take(events.len() - 1) =~= earlier);
        law_scripts_live_with_their_browsers(entries, browser_identifier, earlier);
    }
    assert(after.remove(browser_identifier) =~= before.remove(browser_identifier));
    assert(entries.remove(browser_identifier) =~= entries);
}

/// Cross-origin navigation: a replacement is created before the old browser is
/// destroyed, and its scripts stay; the count is what it was.
pub proof fn law_replacement_keeps_its_scripts(
    entries: Map<i32, BrowserInitializationScriptState>,
    browser_identifier: i32,
    scripts: Arc<Vec<String>>,
)
    requires
        well_formed(entries),
        entries.contains_key(browser_identifier),
        can_register(entries, browser_identifier),
        scripts@.len() > 0,
    ensures
        unregistered(registered(entries, browser_identifier, scripts), browser_identifier)
            == entries.insert(
            browser_identifier,
            BrowserInitializationScriptState { scripts, ..entries[browser_identifier] },
        ),
{
    assert(unregistered(registered(entries, browser_identifier, scripts), browser_identifier)
        =~= entries.insert(
        browser_identifier,
        BrowserInitializationScriptState { scripts, ..entries[browser_identifier] },
    ));
}

/// What happens to the browsers of one identifier leaves every other identifier with the
/// entry that it had, or with none: whether a browser is created, with scripts or without,
/// or destroyed, and whether the identifier is known or not.
pub proof fn law_other_identifiers_keep_their_scripts(
    entries: Map<i32, BrowserInitializationScriptState>,
    browser_identifier: i32,
    scripts: Arc<Vec<String>>,
    other: i32,
)
    requires
        other != browser_identifier,
    ensures
        registered(entries, browser_identifier, scripts).contains_key(other)
            <==> entries.contains_key(other),
        entries.contains_key(other) ==> registered(entries, browser_identifier, scripts)[other]
            == entries[other],
        unregistered(entries, browser_identifier).contains_key(other) <==> entries.contains_key(
            other,
        ),
        entries.contains_key(other) ==> unregistered(entries, browser_identifier)[other]
            == entries[other],
{
}

/// A creation counts one more browser for a known identifier, and gives it the new scripts
/// if there are any; it enters an unknown one with a count of one exactly if there are
/// scripts.
pub proof fn law_creation_counts_and_brings_scripts(
    entries: Map<i32, BrowserInitializationScriptState>,
    browser_identifier: i32,
    scripts: Arc<Vec<String>>,
)
    requires
        entries.contains_key(browser_identifier)
            ==> entries[browser_identifier].active_browser_count < usize::MAX,
    ensures
        ({
            let after = registered(entries, browser_identifier, scripts);
            let entry = after[browser_identifier];
            &&& after.contains_key(browser_identifier) <==> entries.contains_key(
                browser_identifier,
            ) || scripts@.len() > 0
            &&& entries.contains_key(browser_identifier) ==> entry.active_browser_count
                == entries[browser_identifier].active_browser_count + 1
            &&& !entries.contains_key(browser_identifier) && scripts@.len() > 0
                ==> entry.active_browser_count == 1
            &&& scripts@.len() > 0 ==> entry.scripts == scripts
            &&& entries.contains_key(browser_identifier) && scripts@.len() == 0 ==> entry.scripts
                == entries[browser_identifier].scripts
        }),
{
}

/// A destruction counts one browser less and keeps the scripts, or removes the entry with
/// its last browser; of an unknown identifier it does nothing.
pub proof fn law_destruction_removes_the_last(
    entries: Map<i32, BrowserInitializationScriptState>,
    browser_identifier: i32,
)
    ensures
        ({
            let after = unregistered(entries, browser_identifier);
            let entry = after[browser_identifier];
            &&& after.contains_key(browser_identifier) <==> entries.contains_key(
                browser_identifier,
            ) && entries[browser_identifier].active_browser_count > 1
            &&& after.contains_key(browser_identifier) ==> {
                &&& entry.active_browser_count
                    == entries[browser_identifier].active_browser_count - 1
                &&& entry.scripts == entries[browser_identifier].scripts
            }
        }),
{
}

/// A destruction undoes a creation without scripts of a known identifier, and the creation
/// of an unknown one.
pub proof fn law_destruction_undoes_creation(
    entries: Map<i32, BrowserInitializationScriptState>,
    browser_identifier: i32,
    scripts: Arc<Vec<String>>,
)
    requires
        entries.contains_key(browser_identifier) ==> {
            &&& 1 <= entries[browser_identifier].active_browser_count < usize::MAX
            &&& scripts@.len() == 0
        },
    ensures
        unregistered(registered(entries, browser_identifier, scripts), browser_identifier)
            == entries,
{
    let after = unregistered(
        registered(entries, browser_identifier, scripts),
        browser_identifier,
    );
    assert(after =~= entries);
}

/// The entries after a sequence of events, each of them of the browsers of the identifier
/// that it comes with.
pub open spec fn after_history(
    entries: Map<i32, BrowserInitializationScriptState>,
    history: Seq<(i32, BrowserEvent)>,
) -> Map<i32, BrowserInitializationScriptState>
    decreases history.len(),
{
    if history.len() == 0 {
        entries
    } else {
        let before = after_history(entries, history.drop_last());
        match history.last().1 {
            BrowserEvent::Created(scripts) => registered(before, history.last().0, scripts),
            BrowserEvent::Destroyed => unregistered(before, history.last().0),
        }
    }
}

/// The events of one identifier in a sequence of events.
pub open spec fn events_of(history: Seq<(i32, BrowserEvent)>, browser_identifier: i32) -> Seq<
    BrowserEvent,
>
    decreases history.len(),
{
    if history.len() == 0 {
        Seq::empty()
    } else {
        let before = events_of(history.drop_last(), browser_identifier);
        if history.last().0 == browser_identifier {
            before.push(history.last().1)
        } else {
            before
        }
    }
}

/// What an identifier has depends on the events of its own browsers alone, however they are
/// mixed with those of others.
pub proof fn law_identifiers_are_independent(
    entries: Map<i32, BrowserInitializationScriptState>,
    history: Seq<(i32, BrowserEvent)>,
    browser_identifier: i32,
)
    ensures
        ({
            let mixed = after_history(entries, history);
            let alone = after_events(
                entries,
                browser_identifier,
                events_of(history, browser_identifier),
            );
            &&& mixed.contains_key(browser_identifier) <==> alone.contains_key(browser_identifier)
            &&& mixed.contains_key(browser_identifier) ==> mixed[browser_identifier]
                == alone[browser_identifier]
        }),
    decreases history.len(),
{
    if history.len() > 0 {
        let earlier = history.drop_last();
        law_identifiers_are_independent(entries, earlier, browser_identifier);
        let own = events_of(earlier, browser_identifier);
        if history.last().0 == browser_identifier {
            assert(own.push(history.last().1).drop_last() =~= own);
        }
    }
}

/// The events of an identifier that is not known change nothing before a browser is created
/// with scripts.
pub proof fn law_nothing_is_entered_before_scripts(
    entries: Map<i32, BrowserInitializationScriptState>,
    browser_identifier: i32,
    events: Seq<BrowserEvent>,
)
    requires
        !entries.contains_key(browser_identifier),
        forall|k: int|
            #![trigger events[k]]
            0 <= k < events.len() ==> (events[k] matches BrowserEvent::Created(scripts)
                ==> scripts@.len() == 0),
    ensures
        after_events(entries, browser_identifier, events) == entries,
    decreases events.len(),
{
    if events.len() > 0 {
        let earlier = events.drop_last();
        assert forall|k: int| #![trigger earlier[k]] 0 <= k < earlier.len() implies (
        earlier[k] matches BrowserEvent::Created(scripts) ==> scripts@.len() == 0) by {
            assert(earlier[k] == events[k]);
        }
        law_nothing_is_entered_before_scripts(entries, browser_identifier, earlier);
        assert(events[events.len() - 1] == events.last());
    }
}

proof fn lemma_events_in_two_parts(
    entries: Map<i32, BrowserInitializationScriptState>,
    browser_identifier: i32,
    earlier: Seq<BrowserEvent>,
    later: Seq<BrowserEvent>,
)
    ensures
        after_events(entries, browser_identifier, earlier + later) == after_events(
            after_events(entries, browser_identifier, earlier),
            browser_identifier,
            later,
        ),
    decreases later.len(),
{
    if later.len() == 0 {
        assert(earlier + later =~= earlier);
    } else {
        lemma_events_in_two_parts(entries, browser_identifier, earlier, later.drop_last());
        assert((earlier + later).drop_last() =~= earlier + later.drop_last());
    }
}

/// Scripts live with their browsers among all others, over any history of the browsers of
/// all identifiers. Of an unknown identifier nothing is kept while its browsers are created
/// without scripts or destroyed (its first `quiet` events). From its first creation with
/// scripts on, and until its browsers run out, it has its latest scripts and the number of
/// its browsers; when none is left, it has nothing.
pub proof fn law_scripts_live_among_others(
    entries: Map<i32, BrowserInitializationScriptState>,
    history: Seq<(i32, BrowserEvent)>,
    browser_identifier: i32,
    quiet: int,
)
    requires
        ({
            let own = events_of(history, browser_identifier);
            let events = own.skip(quiet);
            &&& !entries.contains_key(browser_identifier)
            &&& 0 <= quiet < own.len() <= usize::MAX
            &&& forall|k: int|
                #![trigger own[k]]
                0 <= k < quiet ==> (own[k] matches BrowserEvent::Created(scripts)
                    ==> scripts@.len() == 0)
            &&& own[quiet] matches BrowserEvent::Created(scripts) && scripts@.len() > 0
            &&& forall|n: int|
                0 < n < events.len() ==> live_browsers(#[trigger] events.take(n)) > 0
        }),
    ensures
        ({
            let events = events_of(history, browser_identifier).skip(quiet);
            let after = after_history(entries, history);
            &&& after.contains_key(browser_identifier) <==> live_browsers(events) > 0
            &&& live_browsers(events) > 0 ==> {
                &&& after[browser_identifier].active_browser_count == live_browsers(events)
                &&& latest_scripts(events) == Some(after[browser_identifier].scripts)
            }
        }),
{
    let own = events_of(history, browser_identifier);
    let first = own.take(quiet);
    let events = own.skip(quiet);
    law_identifiers_are_independent(entries, history, browser_identifier);
    assert forall|k: int| #![trigger first[k]] 0 <= k < first.len() implies (
    first[k] matches BrowserEvent::Created(scripts) ==> scripts@.len() == 0) by {
        assert(first[k] == own[k]);
    }
    law_nothing_is_entered_before_scripts(entries, browser_identifier, first);
    lemma_events_in_two_parts(entries, browser_identifier, first, events);
    assert(first + events =~= own);
    assert(events[0] == own[quiet]);
    law_scripts_live_with_their_browsers(entries, browser_identifier, events);
}

/// A browser can be counted unless its identifier has as many as a machine word counts.
pub proof fn law_browsers_can_be_counted(
    entries: Map<i32, BrowserInitializationScriptState>,
    browser_identifier: i32,
)
    ensures
        can_register(entries, browser_identifier) <==> !entries.contains_key(browser_identifier)
            || entries[browser_identifier].active_browser_count < usize::MAX,
{
}

/// Scripts are packed whenever there are any: all of them, each text as it is, in their
/// order.
pub proof fn law_all_scripts_are_packed(scripts: Seq<&str>, extra_info: Option<ExtraInfo>)
    requires
        is_packed(scripts, extra_info),
    ensures
        extra_info is None <==> scripts.len() == 0,
        extra_info is Some ==> {
            let list = extra_info->0.scripts->0@;
            &&& extra_info->0.scripts is Some
            &&& list.len() == scripts.len()
            &&& forall|i: int| #![trigger list[i]] 0 <= i < scripts.len() ==> list[i]@
                == scripts[i]@
        },
{
    if extra_info is Some {
        let list = extra_info->0.scripts->0@;
        assert(texts(list).len() == scripts.len());
        assert forall|i: int| #![trigger list[i]] 0 <= i < scripts.len() implies list[i]@
            == scripts[i]@ by {
            assert(texts(list)[i] == scripts.map_values(|script: &str| script@)[i]);
        }
    }
}

/// Unpacking gives the list as it is, and no script where there is no list.
pub proof fn law_unpacking_takes_the_list(extra_info: Option<ExtraInfo>)
    ensures
        extra_info is Some && extra_info->0.scripts is Some ==> scripts_of(extra_info)
            == extra_info->0.scripts->0@,
        extra_info is None || extra_info->0.scripts is None ==> scripts_of(extra_info).len() == 0,
{
}

/// The names that both processes have to agree on: the key that scripts are packed under, and
/// the address that they are evaluated under.
pub proof fn law_names_of_the_scripts()
    ensures
        ALL_FRAME_INITIALIZATION_SCRIPTS_KEY@ == "tauri:all-frame-initialization-scripts"@,
        INITIALIZATION_SCRIPT_URL@ == "tauri://initialization-script"@,
{
}

} // verus!
