//! The orchestration: what to do on a tick, on a new session, on a look at
//! champion select, and when a champion is selected.
//!
//! The host runs the loop. It hands each event to
//! `AppContext::check_champ_select_update`, carries out the action that comes
//! back and reports the outcome as the next event.

use crate::client::{request_views, ClientRequest, LOLClientAPI, Method, RequestView};
use crate::client_champ_select::ChampSelectSession;
use crate::client_runepage::{NewRunePage, NewRunePageView, RunePage};
use crate::rune::{Overview, RuneExtended};
use crate::text::is_prefix;
use crate::util::{
    build_page, ids_of, lemma_set_styles_mean_full_page, page_of, style_members,
    AUTO_DETECT_INTERVAL_MS, UNSET_STYLE,
};
use std::collections::HashMap;
use vstd::prelude::*;
use vstd::string::StringExecFns;

verus! {

/// What the screen shows.
#[derive(Clone, Copy, Debug, PartialEq, Eq, Structural)]
pub enum State {
    Initial,
    TextInput,
    ChampScroll,
    ChampSelected,
    ModeSelect,
    VersionSelect,
    RegionSelect,
    RoleSelect,
    BuildSelect,
    HelpMenu,
    Logger,
}

/// The state of the link to the game client.
#[derive(Debug)]
pub enum Connection {
    /// No session: the next tick looks for the client again.
    Disconnected,
    /// A session, and no champion seen locked in yet.
    Idle(LOLClientAPI),
    /// A session, and the champion that the player was last seen to lock in.
    ChampionLocked(LOLClientAPI, i64),
}

impl Connection {
    /// The session, while there is one.
    pub open spec fn session(self) -> Option<LOLClientAPI> {
        match self {
            Connection::Disconnected => None,
            Connection::Idle(api) => Some(api),
            Connection::ChampionLocked(api, _) => Some(api),
        }
    }

    /// The champion last seen locked in.
    pub open spec fn locked(self) -> Option<i64> {
        match self {
            Connection::ChampionLocked(_, champion) => Some(champion),
            _ => None,
        }
    }

    /// The session, while there is one.
    pub fn api(&self) -> (r: Option<&LOLClientAPI>)
        ensures
            match r {
                Some(api) => self.session() == Some(*api),
                None => self.session() is None,
            },
    {
        match self {
            Connection::Disconnected => None,
            Connection::Idle(api) => Some(api),
            Connection::ChampionLocked(api, _) => Some(api),
        }
    }

    /// The champion last seen locked in.
    pub fn locked_champion(&self) -> (r: Option<i64>)
        ensures
            r == self.locked(),
    {
        match self {
            Connection::ChampionLocked(_, champion) => Some(*champion),
            _ => None,
        }
    }
}

/// What the host reports.
#[derive(Debug)]
pub enum ClientEvent {
    /// The clock, in milliseconds.
    Tick(u64),
    /// The outcome of `ClientAction::Connect`: the session, if one was made.
    Session(Option<LOLClientAPI>),
    /// The outcome of `ClientAction::FetchChampSelect`: the data of the reply.
    ChampSelect(Option<ChampSelectSession>),
}

/// What the host is to do next.
#[derive(Clone, Copy, Debug, PartialEq, Eq, Structural)]
pub enum ClientAction {
    /// Nothing until the next tick.
    Wait,
    /// Try to make a session and report it.
    Connect,
    /// Send the champion select request of the session and report the reply.
    FetchChampSelect,
    /// The player locked in this champion: fetch its build and select it.
    SelectChampion(i64),
}

/// The state that the orchestration keeps.
#[derive(Debug)]
pub struct AppContext {
    pub connection: Connection,
    pub state: State,
    pub champ_scroll_pos: Option<usize>,
    /// The clock at the last tick that was due, in milliseconds.
    pub last_auto_detect: u64,
    /// How long the last frame took to draw, once one was measured.
    pub last_render_duration: Option<core::time::Duration>,
}

/// A tick is due once the interval has passed since the last one that was.
pub open spec fn due(last: u64, now: u64) -> bool {
    now - last >= AUTO_DETECT_INTERVAL_MS
}

/// A tick that is due notes the time and asks for a session or a look at
/// champion select; one that is not changes nothing.
pub open spec fn after_tick(ctx: AppContext, now: u64) -> (AppContext, ClientAction) {
    if !due(ctx.last_auto_detect, now) {
        (ctx, ClientAction::Wait)
    } else {
        (
            AppContext { last_auto_detect: now, ..ctx },
            if ctx.connection is Disconnected {
                ClientAction::Connect
            } else {
                ClientAction::FetchChampSelect
            },
        )
    }
}

/// A session that arrives while there is none is taken and looked at right
/// away; any other report changes nothing.
pub open spec fn after_session(ctx: AppContext, session: Option<LOLClientAPI>) -> (
    AppContext,
    ClientAction,
) {
    match (ctx.connection, session) {
        (Connection::Disconnected, Some(api)) => (
            AppContext { connection: Connection::Idle(api), ..ctx },
            ClientAction::FetchChampSelect,
        ),
        _ => (ctx, ClientAction::Wait),
    }
}

/// The connection once the player is seen to have locked in `champion`, and
/// what follows from it. A champion that is already noted changes nothing.
pub open spec fn after_lock(connection: Connection, champion: i64) -> (Connection, ClientAction) {
    match connection.session() {
        Some(api) => if connection.locked() == Some(champion) {
            (connection, ClientAction::Wait)
        } else {
            (Connection::ChampionLocked(api, champion), ClientAction::SelectChampion(champion))
        },
        None => (connection, ClientAction::Wait),
    }
}

/// A look at champion select: without a session it is ignored, without data
/// it ends the session, and with a locked champion it is noted by
/// `after_lock`.
pub open spec fn after_champ_select(ctx: AppContext, reply: Option<ChampSelectSession>) -> (
    AppContext,
    ClientAction,
) {
    if ctx.connection is Disconnected {
        (ctx, ClientAction::Wait)
    } else {
        match reply {
            None => (AppContext { connection: Connection::Disconnected, ..ctx }, ClientAction::Wait),
            Some(session) => match session.locked() {
                Some(champion) => (
                    AppContext { connection: after_lock(ctx.connection, champion).0, ..ctx },
                    after_lock(ctx.connection, champion).1,
                ),
                None => (ctx, ClientAction::Wait),
            },
        }
    }
}

/// The state after `event`, and the action that it calls for.
pub open spec fn step(ctx: AppContext, event: ClientEvent) -> (AppContext, ClientAction) {
    match event {
        ClientEvent::Tick(now) => after_tick(ctx, now),
        ClientEvent::Session(session) => after_session(ctx, session),
        ClientEvent::ChampSelect(reply) => after_champ_select(ctx, reply),
    }
}

/// The state after all of `events`, one after the other.
pub open spec fn after_all(ctx: AppContext, events: Seq<ClientEvent>) -> AppContext
    decreases events.len(),
{
    if events.len() == 0 {
        ctx
    } else {
        step(after_all(ctx, events.drop_last()), events.last()).0
    }
}

/// How many of `events` called for `ClientAction::SelectChampion`.
pub open spec fn selections(ctx: AppContext, events: Seq<ClientEvent>) -> nat
    decreases events.len(),
{
    if events.len() == 0 {
        0
    } else {
        selections(ctx, events.drop_last()) + if step(
            after_all(ctx, events.drop_last()),
            events.last(),
        ).1 is SelectChampion {
            1nat
        } else {
            0nat
        }
    }
}

/// The event is a look at champion select that shows `champion` locked in.
pub open spec fn shows_locked(event: ClientEvent, champion: i64) -> bool {
    event matches ClientEvent::ChampSelect(Some(session)) && session.locked() == Some(champion)
}

/// Seeing the same locked champion again and again selects it once: not at
/// all where it was noted before, and else at the first look only.
pub proof fn lemma_same_champion_selected_once(
    ctx: AppContext,
    events: Seq<ClientEvent>,
    champion: i64,
)
    requires
        !(ctx.connection is Disconnected),
        events.len() >= 1,
        forall|i: int| 0 <= i < events.len() ==> shows_locked(#[trigger] events[i], champion),
    ensures
        selections(ctx, events) == if ctx.connection.locked() == Some(champion) {
            0nat
        } else {
            1nat
        },
        after_all(ctx, events).connection.locked() == Some(champion),
        after_all(ctx, events).connection.session() == ctx.connection.session(),
    decreases events.len(),
{
    let init = events.drop_last();
    assert(shows_locked(events[events.len() - 1], champion));
    if init.len() > 0 {
        assert forall|i: int| 0 <= i < init.len() implies shows_locked(
            #[trigger] init[i],
            champion,
        ) by {
            assert(init[i] == events[i]);
        }
        lemma_same_champion_selected_once(ctx, init, champion);
    } else {
        assert(after_all(ctx, init) == ctx);
        assert(selections(ctx, init) == 0);
    }
}

/// A look that shows the champion that is already noted changes nothing
/// and asks for nothing.
pub proof fn lemma_noted_champion_changes_nothing(
    ctx: AppContext,
    event: ClientEvent,
    champion: i64,
)
    requires
        ctx.connection.locked() == Some(champion),
        shows_locked(event, champion),
    ensures
        step(ctx, event) == (ctx, ClientAction::Wait),
{
}

/// How many of `events` are looks at champion select.
pub open spec fn looks(events: Seq<ClientEvent>) -> nat
    decreases events.len(),
{
    if events.len() == 0 {
        0
    } else {
        looks(events.drop_last()) + if events.last() is ChampSelect {
            1nat
        } else {
            0nat
        }
    }
}

/// The same holds with ticks and session reports in between: however often
/// the host polls, a champion that stays locked in is selected once, at the
/// first look that shows it, unless it was noted before.
pub proof fn lemma_polling_selects_once(ctx: AppContext, events: Seq<ClientEvent>, champion: i64)
    requires
        !(ctx.connection is Disconnected),
        forall|i: int|
            0 <= i < events.len() ==> (#[trigger] events[i]) is Tick || events[i] is Session
                || shows_locked(events[i], champion),
    ensures
        after_all(ctx, events).connection.session() == ctx.connection.session(),
        looks(events) == 0 ==> selections(ctx, events) == 0 && after_all(ctx, events).connection
            == ctx.connection,
        looks(events) > 0 ==> after_all(ctx, events).connection.locked() == Some(champion)
            && selections(ctx, events) == if ctx.connection.locked() == Some(champion) {
            0nat
        } else {
            1nat
        },
    decreases events.len(),
{
    if events.len() > 0 {
        let init = events.drop_last();
        assert forall|i: int| 0 <= i < init.len() implies (#[trigger] init[i]) is Tick
            || init[i] is Session || shows_locked(init[i], champion) by {
            assert(init[i] == events[i]);
        }
        lemma_polling_selects_once(ctx, init, champion);
        let last = events[events.len() - 1];
        assert(last is Tick || last is Session || shows_locked(last, champion));
        lemma_ticks_select_nothing(after_all(ctx, init), last);
    }
}

/// Ticks and reported sessions select no champion, and leave a connection
/// that stands as it is.
pub proof fn lemma_ticks_select_nothing(ctx: AppContext, event: ClientEvent)
    ensures
        event is Tick || event is Session ==> !(step(ctx, event).1 is SelectChampion),
        (event is Tick || event is Session) && !(ctx.connection is Disconnected) ==> step(
            ctx,
            event,
        ).0.connection == ctx.connection,
{
}

/// A look at champion select that brings no data ends the session.
pub proof fn lemma_failed_look_disconnects(ctx: AppContext)
    ensures
        step(ctx, ClientEvent::ChampSelect(None)).0.connection is Disconnected,
        step(ctx, ClientEvent::ChampSelect(None)).1 == ClientAction::Wait,
{
}

/// The name of the page for a champion and a game mode.
pub open spec fn page_name(champ: Seq<char>, mode: Seq<char>) -> Seq<char> {
    "uggo: "@ + champ + ", "@ + mode
}

/// A page fit to publish: both styles are set and there are nine perks.
pub open spec fn is_complete(page: (i64, i64, Seq<i64>)) -> bool {
    page.0 != UNSET_STYLE && page.1 != UNSET_STYLE && page.2.len() == 9
}

/// Rune ids and shard ids of the build, where there is one.
pub open spec fn build_view(overview: Option<&Overview>) -> Option<(Seq<i64>, Seq<i64>)> {
    match overview {
        Some(overview) => Some((overview.rune_ids@, overview.shard_ids@)),
        None => None,
    }
}

/// The requests that bring the client's rune page up to the build: none
/// without a session, without a build, where the client's pages are not
/// known, or where the build maps to no complete page; else those that
/// publish the page under the champion's name.
pub open spec fn rune_update(
    connection: Connection,
    champ: Seq<char>,
    mode: Seq<char>,
    build: Option<(Seq<i64>, Seq<i64>)>,
    meta: Map<i64, RuneExtended>,
    pages: Option<Seq<RunePage>>,
) -> Seq<RequestView> {
    match (connection.session(), build) {
        (Some(api), Some(build)) => {
            let page = page_of(build.0, build.1, meta);
            if is_complete(page) {
                api.publish_plan(
                    pages,
                    NewRunePageView {
                        name: page_name(champ, mode),
                        primary_style_id: page.0,
                        sub_style_id: page.1,
                        selected_perk_ids: page.2,
                    },
                )
            } else {
                Seq::empty()
            }
        },
        _ => Seq::empty(),
    }
}

/// A build that maps to an unset style is never published.
pub proof fn lemma_unset_style_publishes_nothing(
    connection: Connection,
    champ: Seq<char>,
    mode: Seq<char>,
    rune_ids: Seq<i64>,
    shard_ids: Seq<i64>,
    meta: Map<i64, RuneExtended>,
    pages: Option<Seq<RunePage>>,
)
    requires
        page_of(rune_ids, shard_ids, meta).0 == UNSET_STYLE || page_of(rune_ids, shard_ids, meta).1
            == UNSET_STYLE,
    ensures
        rune_update(connection, champ, mode, Some((rune_ids, shard_ids)), meta, pages).len() == 0,
{
}

/// Whatever is published is a full page under the champion's name: nine perk
/// ids, of which the first four are the first four runes of the primary
/// style, in input order and with a keystone among them, the next two the
/// first two runes of the secondary style, which is another one, and the
/// last three the shards. The
/// page is created by the last request, and at most one request goes before.
pub proof fn lemma_published_page_is_full(
    connection: Connection,
    champ: Seq<char>,
    mode: Seq<char>,
    rune_ids: Seq<i64>,
    shard_ids: Seq<i64>,
    meta: Map<i64, RuneExtended>,
    pages: Option<Seq<RunePage>>,
)
    requires
        rune_update(connection, champ, mode, Some((rune_ids, shard_ids)), meta, pages).len() > 0,
    ensures
        ({
            let plan = rune_update(
                connection,
                champ,
                mode,
                Some((rune_ids, shard_ids)),
                meta,
                pages,
            );
            &&& plan.len() <= 2
            &&& plan.len() == 2 ==> plan[0].method == Method::Delete && plan[0].body is None
            &&& plan.last().method == Method::Post
            &&& plan.last().body matches Some(page) && {
                &&& page.name == page_name(champ, mode)
                &&& page.primary_style_id != UNSET_STYLE
                &&& page.sub_style_id != UNSET_STYLE
                &&& page.primary_style_id != page.sub_style_id
                &&& page.selected_perk_ids.len() == 9
                &&& page.selected_perk_ids.subrange(0, 4) == ids_of(
                    style_members(rune_ids, meta, page.primary_style_id),
                ).take(4)
                &&& page.selected_perk_ids.subrange(4, 6) == ids_of(
                    style_members(rune_ids, meta, page.sub_style_id),
                ).take(2)
                &&& page.selected_perk_ids.subrange(6, 9) == shard_ids
                &&& exists|k: int|
                    0 <= k < 4 && meta.contains_key(#[trigger] page.selected_perk_ids[k])
                        && meta[page.selected_perk_ids[k]].slot == 0
            }
        }),
{
    lemma_set_styles_mean_full_page(rune_ids, shard_ids, meta);
    let built = page_of(rune_ids, shard_ids, meta);
    let api = connection.session()->0;
    let page = NewRunePageView {
        name: page_name(champ, mode),
        primary_style_id: built.0,
        sub_style_id: built.1,
        selected_perk_ids: built.2,
    };
    let plan = rune_update(connection, champ, mode, Some((rune_ids, shard_ids)), meta, pages);
    assert(is_complete(built));
    assert(plan == api.publish_plan(pages, page));
    assert(plan.last() == api.request_of(Method::Post, "/lol-perks/v1/pages"@, Some(page)));
    let key = choose|k: int| 0 <= k < 4 && meta[#[trigger] built.2[k]].slot == 0;
    assert(meta.contains_key(page.selected_perk_ids[key]));
}

/// Every page name is one that `is_tool_page` knows again.
pub proof fn lemma_page_name_is_known(champ: Seq<char>, mode: Seq<char>)
    ensures
        is_prefix("uggo:"@, page_name(champ, mode)),
{
    reveal_strlit("uggo:");
    reveal_strlit("uggo: ");
    assert(page_name(champ, mode).subrange(0, 5) =~= "uggo:"@);
}

impl AppContext {
    /// A context without a session, showing the initial screen. `now` is the
    /// clock in milliseconds: the first tick is due one interval later.
    pub fn new(now: u64) -> (ctx: AppContext)
        ensures
            ctx.connection is Disconnected,
            ctx.state == State::Initial,
            ctx.champ_scroll_pos is None,
            ctx.last_auto_detect == now,
            ctx.last_render_duration is None,
    {
        AppContext {
            connection: Connection::Disconnected,
            state: State::Initial,
            champ_scroll_pos: None,
            last_auto_detect: now,
            last_render_duration: None,
        }
    }

    /// Notes how long the last frame took to draw.
    pub fn set_render_duration(&mut self, duration: core::time::Duration)
        ensures
            *final(self) == (AppContext { last_render_duration: Some(duration), ..*old(self) }),
    {
        self.last_render_duration = Some(duration);
    }

    /// Goes back to the initial screen; the scroll position is forgotten on
    /// request.
    pub fn return_to_initial(&mut self, reset_champ_scroll: bool)
        ensures
            final(self).state == State::Initial,
            final(self).champ_scroll_pos == if reset_champ_scroll {
                None
            } else {
                old(self).champ_scroll_pos
            },
            final(self).connection == old(self).connection,
            final(self).last_auto_detect == old(self).last_auto_detect,
            final(self).last_render_duration == old(self).last_render_duration,
    {
        self.state = State::Initial;
        if reset_champ_scroll {
            self.champ_scroll_pos = None;
        }
    }

    /// Notes that the player has locked in `champion`: see `after_lock`.
    /// Without a session, and for a champion that is already noted, nothing
    /// changes and nothing is asked for. Else the champion is noted and its
    /// selection asked for.
    pub fn handle_auto_select_champ(&mut self, champion: i64) -> (action: ClientAction)
        ensures
            final(self).connection == after_lock(old(self).connection, champion).0,
            action == after_lock(old(self).connection, champion).1,
            final(self).state == old(self).state,
            final(self).champ_scroll_pos == old(self).champ_scroll_pos,
            final(self).last_auto_detect == old(self).last_auto_detect,
            final(self).last_render_duration == old(self).last_render_duration,
    {
        let mut connection = Connection::Disconnected;
        std::mem::swap(&mut self.connection, &mut connection);
        match connection {
            Connection::Disconnected => ClientAction::Wait,
            Connection::Idle(api) => {
                self.connection = Connection::ChampionLocked(api, champion);
                ClientAction::SelectChampion(champion)
            },
            Connection::ChampionLocked(api, noted) => {
                self.connection = Connection::ChampionLocked(api, champion);
                if noted == champion {
                    ClientAction::Wait
                } else {
                    ClientAction::SelectChampion(champion)
                }
            },
        }
    }

    /// Takes an event and says what to do next: see `step`.
    ///
    /// A tick that is due asks for a session where there is none, and for a
    /// look at champion select where there is one. A new session is looked
    /// at right away. A look without data ends the session. A look that
    /// shows a champion locked in that was not noted before notes it and
    /// asks for its selection; every other look changes nothing.
    pub fn check_champ_select_update(&mut self, event: ClientEvent) -> (action: ClientAction)
        ensures
            (*final(self), action) == step(*old(self), event),
    {
        match event {
            ClientEvent::Tick(now) => {
                if now < self.last_auto_detect || now - self.last_auto_detect
                    < AUTO_DETECT_INTERVAL_MS {
                    return ClientAction::Wait;
                }
                self.last_auto_detect = now;
                match self.connection {
                    Connection::Disconnected => ClientAction::Connect,
                    _ => ClientAction::FetchChampSelect,
                }
            },
            ClientEvent::Session(session) => {
                match (&self.connection, session) {
                    (Connection::Disconnected, Some(api)) => {
                        self.connection = Connection::Idle(api);
                        ClientAction::FetchChampSelect
                    },
                    _ => ClientAction::Wait,
                }
            },
            ClientEvent::ChampSelect(reply) => {
                match self.connection {
                    Connection::Disconnected => {
                        return ClientAction::Wait;
                    },
                    _ => {},
                }
                match reply {
                    None => {
                        self.connection = Connection::Disconnected;
                        ClientAction::Wait
                    },
                    Some(session) => match session.locked_champion() {
                        Some(champion) => self.handle_auto_select_champ(champion),
                        None => ClientAction::Wait,
                    },
                }
            },
        }
    }

    /// Selects a champion: shows it, and says which requests bring the
    /// client's rune page up to its build.
    ///
    /// `overview` is the recommended build, if one could be had, and `pages`
    /// the data of the reply to the page list request, if it had any. See
    /// `rune_update` for the requests.
    pub fn select_champion(
        &mut self,
        champ_name: &str,
        mode: &str,
        overview: Option<&Overview>,
        rune_data: &HashMap<i64, RuneExtended>,
        pages: Option<&Vec<RunePage>>,
    ) -> (requests: Vec<ClientRequest>)
        ensures
            final(self).state == State::ChampSelected,
            final(self).champ_scroll_pos is None,
            final(self).connection == old(self).connection,
            final(self).last_auto_detect == old(self).last_auto_detect,
            final(self).last_render_duration == old(self).last_render_duration,
            request_views(requests@) == rune_update(
                old(self).connection,
                champ_name@,
                mode@,
                build_view(overview),
                rune_data@,
                crate::client::pages_view(pages),
            ),
    {
        self.champ_scroll_pos = None;
        self.state = State::ChampSelected;
        let mut requests: Vec<ClientRequest> = Vec::new();
        if let Some(overview) = overview {
            if let Some(api) = self.connection.api() {
                let (primary_style_id, sub_style_id, selected_perk_ids) = build_page(
                    overview.rune_ids.as_slice(),
                    overview.shard_ids.as_slice(),
                    rune_data,
                );
                if primary_style_id != UNSET_STYLE && sub_style_id != UNSET_STYLE
                    && selected_perk_ids.len() == 9 {
                    let mut name = String::from_str("uggo: ");
                    name.append(champ_name);
                    name.append(", ");
                    name.append(mode);
                    requests = api.publish(
                        pages,
                        NewRunePage { name, primary_style_id, sub_style_id, selected_perk_ids },
                    );
                }
            }
        }
        assert(requests@.len() == 0 ==> request_views(requests@) =~= Seq::empty());
        requests
    }
}

} // verus!
