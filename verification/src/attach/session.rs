//! A session: which PTY is attached, and what follows from what the user and the server do.
//!
//! The program around it talks to the server and the terminal; it does what a step asks for, and
//! hands back what came of it.
use super::list::{find_pty, item_size, next_pty, prev_pty, recent_pty, sorted_list, ListScreen};
#[allow(unused_imports)]
use super::list::{is_alone, is_first_selected, is_recent, next_place, place_of, prev_place, size_of_item};
use super::{EventResult, InputAction, RenderMode};
#[allow(unused_imports)]
use crate::order::in_order;
#[allow(unused_imports)]
use crate::proto::ItemModel;
use crate::proto::{Code, Event, MetaEvent, PtyItem, Size, Status, SubscribeEvent};
#[allow(unused_imports)]
use crate::pty::{MetadataReason, PtyEvent, RefreshData};
#[allow(unused_imports)]
use crate::server::is_wire_event;
#[allow(unused_imports)]
use crate::shared_bytes::held_bytes;
#[allow(unused_imports)]
use crate::text::{bytes_of, decimal};
use crate::text::{push_decimal, push_str};
use vstd::prelude::*;
use vstd::string::StringExecFns;

verus! {

broadcast use vstd::string::group_string_axioms;

/// Why the client stopped to paint a PTY.
#[derive(Clone, Copy, Debug, PartialEq, Eq, Structural)]
pub enum RunOutcome {
    /// The connection failed.
    ServerClosed,
    /// The client's own terminal is gone.
    OutputClosed,
    /// The PTY came to its end.
    PtyClosed,
    /// The subscription is to be opened again, without a word to the user.
    Resubscribe,
    Action(InputAction),
}

/// The mode that the cell mode hands over to as soon as the client is large enough.
pub open spec fn upgrade_mode(mode: RenderMode) -> Option<RenderMode> {
    match mode {
        RenderMode::Region => Some(RenderMode::Region),
        RenderMode::Autowrap => Some(RenderMode::Autowrap),
        _ => None,
    }
}

/// The mode that the cell mode hands over to.
pub fn upgrade_to(mode: RenderMode) -> (to: Option<RenderMode>)
    ensures
        to == upgrade_mode(mode),
{
    match mode {
        RenderMode::Region => Some(RenderMode::Region),
        RenderMode::Autowrap => Some(RenderMode::Autowrap),
        _ => None,
    }
}

/// The state of a session.
pub struct Session {
    pub current_id: u64,
    pub current_item: PtyItem,
    pub list: Vec<PtyItem>,
    pub previous_id: Option<u64>,
    /// There is a live subscription to the current PTY.
    pub subscribed: bool,
    /// The next round is spent without a PTY.
    pub skip_subscribe: bool,
    /// The mode that was asked for, and the one in use.
    pub mode: RenderMode,
    pub dispatch_mode: RenderMode,
}

/// The state of a session, by its contents.
pub struct SessionModel {
    pub current_id: u64,
    pub item: ItemModel,
    pub list: Seq<PtyItem>,
    pub previous_id: Option<u64>,
    pub subscribed: bool,
    pub skip_subscribe: bool,
    pub mode: RenderMode,
    pub dispatch_mode: RenderMode,
}

impl View for Session {
    type V = SessionModel;

    open spec fn view(&self) -> SessionModel {
        SessionModel {
            current_id: self.current_id,
            item: self.current_item@,
            list: self.list@,
            previous_id: self.previous_id,
            subscribed: self.subscribed,
            skip_subscribe: self.skip_subscribe,
            mode: self.mode,
            dispatch_mode: self.dispatch_mode,
        }
    }
}

impl SessionModel {
    /// The session turned to another PTY, which it remembers the current one for.
    pub open spec fn switched(self, target: ItemModel) -> SessionModel {
        SessionModel {
            current_id: target.pty_id,
            item: target,
            previous_id: Some(self.current_id),
            ..self
        }
    }

    /// The session without its subscription.
    pub open spec fn unsubscribed(self) -> SessionModel {
        SessionModel { subscribed: false, ..self }
    }

    /// The session without its list.
    pub open spec fn listless(self) -> SessionModel {
        SessionModel { list: Seq::empty(), ..self }
    }

    /// The session that spends the next round without a PTY.
    pub open spec fn idle_next(self) -> SessionModel {
        SessionModel { skip_subscribe: true, ..self }
    }

    /// The session after a size was told; nothing by nothing tells none.
    pub open spec fn sized(self, cols: u32, rows: u32) -> SessionModel {
        if cols > 0 && rows > 0 {
            SessionModel { item: ItemModel { size: Some(Size { cols, rows }), ..self.item }, ..self }
        } else {
            self
        }
    }

    /// The session turned to the PTY at a place of its list, unless that is the current one.
    pub open spec fn turned_to(self, at: int) -> SessionModel {
        if self.list[at].pty_id != self.current_id {
            self.unsubscribed().switched(self.list[at]@)
        } else {
            self
        }
    }
}

/// How a round begins.
#[derive(Clone, Copy, Debug, PartialEq, Eq, Structural)]
pub enum Begin {
    /// Wait for the user, without a PTY.
    Idle,
    /// Subscribe to the current PTY.
    Subscribe,
    /// Ask for a snapshot.
    Refresh,
}

/// What came of an attempt to subscribe.
#[derive(Clone, Copy, Debug, PartialEq, Eq, Structural)]
pub enum SubscribeResult {
    Opened,
    /// There is no such PTY.
    Gone,
    Failed,
}

/// What came of a request for a snapshot.
#[derive(Clone, Copy, Debug, PartialEq, Eq, Structural)]
pub enum RefreshResult {
    Snapshot { cols: u32, rows: u32 },
    /// The subscription ended before it came.
    Ended,
    Failed,
}

/// How a round goes on.
#[derive(Clone, Copy, Debug, PartialEq, Eq, Structural)]
pub enum Opening {
    /// Ask for a snapshot.
    Refresh,
    /// Paint the PTY.
    Render,
    /// The PTY is gone: end it on the server, and let the user choose another.
    PtyGone,
    /// Wait for the connection.
    Reconnect,
}

/// What the user is shown when they are to choose a PTY.
pub enum ListOpening {
    /// The list could not be fetched. Nothing is chosen.
    Failed,
    /// There is no PTY to choose. Nothing is chosen.
    Empty,
    /// The list, with a PTY selected.
    Screen(ListScreen),
}

/// What the user turned to by a key.
#[derive(Clone, Copy, Debug, PartialEq, Eq, Structural)]
pub enum Switch {
    Next,
    Previous,
    Recent,
    Index(u8),
}

/// What follows when the client stopped to paint a PTY. In any case the terminal's modes are reset
/// first; what a session ends with does so, too.
#[derive(Clone, Copy, Debug, PartialEq, Eq, Structural)]
pub enum OutcomeStep {
    /// Begin the next round.
    Again,
    /// End the session.
    End,
    /// Wait for the connection.
    Reconnect,
    /// End the PTY on the server, and let the user choose another.
    PtyClosed,
    /// End the PTY on the server, and fetch the list.
    Destroy,
    /// Give the PTY the client's size.
    Resize,
    /// Ask for a snapshot.
    Refresh,
    /// Create a PTY of the client's size.
    Create,
    /// Fetch the list, and turn to another PTY of it.
    Switch(Switch),
    /// Let the user choose from the list.
    ShowList,
    ShowInfo,
    /// Show the history on so many rows.
    ShowScrollback { rows: u32 },
    ShowHelp,
}

/// Where the list has the PTY that the user turned to.
pub open spec fn is_switch_target(m: SessionModel, switch: Switch, at: Option<int>) -> bool {
    match switch {
        Switch::Next => at == (if m.list.len() == 0 {
            None
        } else {
            Some(next_place(m.list, m.current_id))
        }),
        Switch::Previous => at == (if m.list.len() == 0 {
            None
        } else {
            Some(prev_place(m.list, m.current_id))
        }),
        Switch::Recent => is_recent(m.list, m.previous_id, m.current_id, at),
        Switch::Index(n) => at == (if n < m.list.len() {
            Some(n as int)
        } else {
            None
        }),
    }
}

/// The session after the user chose a PTY from the list because theirs is gone.
pub open spec fn chosen_after_close(m: SessionModel, chosen: Option<u64>) -> SessionModel {
    match chosen {
        Some(id) => if place_of(m.list, id) < m.list.len() {
            m.switched(m.list[place_of(m.list, id)]@).listless()
        } else {
            m
        },
        None => m.idle_next(),
    }
}

impl Session {
    pub fn new(item: PtyItem, mode: RenderMode) -> (session: Self)
        ensures
            session@ == (SessionModel {
                current_id: item.pty_id,
                item: item@,
                list: Seq::empty(),
                previous_id: None,
                subscribed: false,
                skip_subscribe: false,
                mode,
                dispatch_mode: mode,
            }),
    {
        Session {
            current_id: item.pty_id,
            current_item: item,
            list: Vec::new(),
            previous_id: None,
            subscribed: false,
            skip_subscribe: false,
            mode,
            dispatch_mode: mode,
        }
    }

    /// Turns to another PTY.
    fn switch_pty(&mut self, target: PtyItem)
        ensures
            final(self)@ == old(self)@.switched(target@),
    {
        self.previous_id = Some(self.current_id);
        self.current_id = target.pty_id;
        self.current_item = target;
    }

    fn clear_list(&mut self)
        ensures
            final(self)@ == old(self)@.listless(),
    {
        self.list = Vec::new();
        assert(self@.list =~= Seq::empty());
    }

    /// Notes a size that the server told.
    fn note_size(&mut self, cols: u32, rows: u32)
        ensures
            final(self)@ == old(self)@.sized(cols, rows),
    {
        if cols > 0 && rows > 0 {
            self.current_item.size = Some(Size { cols, rows });
        }
    }

    /// Begins a round.
    pub fn begin(&mut self) -> (begin: Begin)
        ensures
            if old(self)@.skip_subscribe {
                begin == Begin::Idle && final(self)@ == (SessionModel {
                    skip_subscribe: false,
                    ..old(self)@.unsubscribed()
                })
            } else {
                final(self)@ == old(self)@ && begin == (if old(self)@.subscribed {
                    Begin::Refresh
                } else {
                    Begin::Subscribe
                })
            },
    {
        if self.skip_subscribe {
            self.skip_subscribe = false;
            self.subscribed = false;
            return Begin::Idle;
        }
        if self.subscribed {
            Begin::Refresh
        } else {
            Begin::Subscribe
        }
    }

    /// Goes on after an attempt to subscribe.
    pub fn on_subscribed(&mut self, result: SubscribeResult) -> (opening: Opening)
        ensures
            match result {
                SubscribeResult::Opened => opening == Opening::Refresh && final(self)@ == (SessionModel {
                    subscribed: true,
                    ..old(self)@
                }),
                SubscribeResult::Gone => opening == Opening::PtyGone && final(self)@
                    == old(self)@.unsubscribed().listless(),
                SubscribeResult::Failed => opening == Opening::Reconnect && final(self)@ == old(self)@,
            },
    {
        match result {
            SubscribeResult::Opened => {
                self.subscribed = true;
                Opening::Refresh
            },
            SubscribeResult::Gone => {
                self.subscribed = false;
                self.clear_list();
                Opening::PtyGone
            },
            SubscribeResult::Failed => Opening::Reconnect,
        }
    }

    /// Goes on after a request for a snapshot.
    pub fn on_refreshed(&mut self, result: RefreshResult) -> (opening: Opening)
        ensures
            match result {
                RefreshResult::Snapshot { cols, rows } => opening == Opening::Render && final(self)@ == old(
                    self)@.sized(cols, rows),
                RefreshResult::Ended => opening == Opening::PtyGone && final(self)@
                    == old(self)@.unsubscribed().listless(),
                RefreshResult::Failed => opening == Opening::Reconnect && final(self)@ == old(self)@,
            },
    {
        match result {
            RefreshResult::Snapshot { cols, rows } => {
                self.note_size(cols, rows);
                Opening::Render
            },
            RefreshResult::Ended => {
                self.subscribed = false;
                self.clear_list();
                Opening::PtyGone
            },
            RefreshResult::Failed => Opening::Reconnect,
        }
    }

    /// Takes a list that was fetched.
    pub fn set_list(&mut self, items: Vec<PtyItem>)
        ensures
            final(self)@ == (SessionModel { list: in_order(items@), ..old(self)@ }),
    {
        self.list = sorted_list(items);
    }

    /// Takes the list that the user is to choose from; `None` where it could not be fetched.
    pub fn open_list(&mut self, fetched: Option<Vec<PtyItem>>) -> (opening: ListOpening)
        ensures
            match fetched {
                None => final(self)@ == old(self)@ && opening == ListOpening::Failed,
                Some(items) => {
                    &&& final(self)@ == (SessionModel { list: in_order(items@), ..old(self)@ })
                    &&& if items@.len() == 0 {
                        opening == ListOpening::Empty
                    } else {
                        opening matches ListOpening::Screen(screen) && is_first_selected(
                            in_order(items@),
                            old(self)@.current_id,
                            screen.selected,
                        )
                    }
                },
            },
    {
        match fetched {
            None => ListOpening::Failed,
            Some(items) => {
                self.set_list(items);
                match ListScreen::open(self.list.as_slice(), self.current_id) {
                    None => ListOpening::Empty,
                    Some(screen) => ListOpening::Screen(screen),
                }
            },
        }
    }

    /// Takes the user's choice after their PTY is gone. Where they chose none, the session goes on
    /// without a PTY: at once where it was just to be opened, and in the next round where it was
    /// being painted.
    pub fn on_closed_choice(&mut self, chosen: Option<u64>)
        ensures
            final(self)@ == chosen_after_close(old(self)@, chosen),
    {
        match chosen {
            Some(id) => {
                let at = find_pty(self.list.as_slice(), id);
                if at < self.list.len() {
                    let target = self.list[at].clone();
                    self.switch_pty(target);
                    self.clear_list();
                }
            },
            None => {
                self.skip_subscribe = true;
            },
        }
    }

    /// Goes on after the wait for the connection. Returns false where the user gave up.
    pub fn on_reconnected(&mut self, back: bool) -> (goes_on: bool)
        ensures
            goes_on == back,
            final(self)@ == (if back {
                old(self)@.unsubscribed()
            } else {
                old(self)@
            }),
    {
        if back {
            self.subscribed = false;
        }
        back
    }

    /// Goes on after the client stopped to paint a PTY.
    pub fn on_outcome(&mut self, outcome: RunOutcome) -> (step: OutcomeStep)
        ensures
            final(self)@ == (match outcome {
                RunOutcome::Resubscribe => old(self)@.unsubscribed(),
                RunOutcome::PtyClosed => old(self)@.unsubscribed().listless(),
                _ => old(self)@,
            }),
            step == (match outcome {
                RunOutcome::ServerClosed => OutcomeStep::Reconnect,
                RunOutcome::OutputClosed => OutcomeStep::End,
                RunOutcome::PtyClosed => OutcomeStep::PtyClosed,
                RunOutcome::Resubscribe => OutcomeStep::Again,
                RunOutcome::Action(action) => match action {
                    InputAction::Detach => OutcomeStep::End,
                    InputAction::Destroy => OutcomeStep::Destroy,
                    InputAction::Create => OutcomeStep::Create,
                    InputAction::ForceResize => OutcomeStep::Resize,
                    InputAction::ForceRefresh => if old(self)@.subscribed {
                        OutcomeStep::Refresh
                    } else {
                        OutcomeStep::Again
                    },
                    InputAction::SwitchNext => OutcomeStep::Switch(Switch::Next),
                    InputAction::SwitchPrevious => OutcomeStep::Switch(Switch::Previous),
                    InputAction::SwitchRecent => OutcomeStep::Switch(Switch::Recent),
                    InputAction::SwitchIndex(n) => OutcomeStep::Switch(Switch::Index(n)),
                    InputAction::ShowList => OutcomeStep::ShowList,
                    InputAction::ShowInfo => OutcomeStep::ShowInfo,
                    InputAction::ShowScrollback => if old(self)@.subscribed {
                        OutcomeStep::ShowScrollback { rows: size_of_item(old(self).current_item).1 }
                    } else {
                        OutcomeStep::Again
                    },
                    InputAction::ShowHelp => OutcomeStep::ShowHelp,
                },
            }),
    {
        match outcome {
            RunOutcome::ServerClosed => OutcomeStep::Reconnect,
            RunOutcome::OutputClosed => OutcomeStep::End,
            RunOutcome::PtyClosed => {
                self.subscribed = false;
                self.clear_list();
                OutcomeStep::PtyClosed
            },
            RunOutcome::Resubscribe => {
                self.subscribed = false;
                OutcomeStep::Again
            },
            RunOutcome::Action(action) => match action {
                InputAction::Detach => OutcomeStep::End,
                InputAction::Destroy => OutcomeStep::Destroy,
                InputAction::Create => OutcomeStep::Create,
                InputAction::ForceResize => OutcomeStep::Resize,
                InputAction::ForceRefresh => if self.subscribed {
                    OutcomeStep::Refresh
                } else {
                    OutcomeStep::Again
                },
                InputAction::SwitchNext => OutcomeStep::Switch(Switch::Next),
                InputAction::SwitchPrevious => OutcomeStep::Switch(Switch::Previous),
                InputAction::SwitchRecent => OutcomeStep::Switch(Switch::Recent),
                InputAction::SwitchIndex(n) => OutcomeStep::Switch(Switch::Index(n)),
                InputAction::ShowList => OutcomeStep::ShowList,
                InputAction::ShowInfo => OutcomeStep::ShowInfo,
                InputAction::ShowScrollback => if self.subscribed {
                    OutcomeStep::ShowScrollback { rows: item_size(&self.current_item).1 }
                } else {
                    OutcomeStep::Again
                },
                InputAction::ShowHelp => OutcomeStep::ShowHelp,
            },
        }
    }

    /// Goes on after the current PTY was ended on the server: with the one to go back to, where
    /// there is one among those that were fetched, and otherwise without a PTY. Returns whether the
    /// user is to be told that there is no other.
    pub fn on_destroyed(&mut self, fetched: Option<Vec<PtyItem>>) -> (alone: bool)
        ensures
            match fetched {
                None => !alone && final(self)@ == old(self)@.unsubscribed().listless().idle_next(),
                Some(items) => {
                    let m = SessionModel { list: in_order(items@), ..old(self)@.unsubscribed() };
                    &&& alone == is_alone(m.list, m.previous_id, m.current_id)
                    &&& exists|at: Option<int>|
                        #![trigger is_recent(m.list, m.previous_id, m.current_id, at)]
                        is_recent(m.list, m.previous_id, m.current_id, at) && final(self)@ == (if at is Some
                            && m.list[at->0].pty_id != m.current_id {
                            m.switched(m.list[at->0]@).listless()
                        } else {
                            m.idle_next()
                        })
                },
            },
    {
        self.subscribed = false;
        self.clear_list();
        match fetched {
            None => {
                self.skip_subscribe = true;
                false
            },
            Some(items) => {
                self.set_list(items);
                let recent = recent_pty(self.list.as_slice(), self.previous_id, self.current_id);
                let ghost m = self@;
                let ghost at: Option<int> = match recent.at {
                    Some(i) => Some(i as int),
                    None => None,
                };
                assert(is_recent(m.list, m.previous_id, m.current_id, at));
                match recent.at {
                    Some(i) => {
                        if self.list[i].pty_id != self.current_id {
                            let target = self.list[i].clone();
                            self.switch_pty(target);
                            self.clear_list();
                        } else {
                            self.skip_subscribe = true;
                        }
                    },
                    None => {
                        self.skip_subscribe = true;
                    },
                }
                recent.alone
            },
        }
    }

    /// Turns to a PTY that was created.
    pub fn on_created(&mut self, item: PtyItem)
        ensures
            final(self)@ == old(self)@.unsubscribed().switched(item@).listless(),
    {
        self.subscribed = false;
        self.switch_pty(item);
        self.clear_list();
    }

    /// Turns to another PTY of the list that was just fetched. Returns whether the user is to be
    /// told that there is no other.
    pub fn on_switch(&mut self, switch: Switch, fetched: Vec<PtyItem>) -> (alone: bool)
        ensures
            ({
                let m = SessionModel { list: in_order(fetched@), ..old(self)@ };
                &&& alone == (switch == Switch::Recent && is_alone(m.list, m.previous_id, m.current_id))
                &&& exists|at: Option<int>|
                    #![trigger is_switch_target(m, switch, at)]
                    is_switch_target(m, switch, at) && final(self)@ == (match at {
                        Some(i) => m.turned_to(i),
                        None => m,
                    })
            }),
    {
        self.set_list(fetched);
        let ghost m = self@;
        let mut alone = false;
        let target: Option<PtyItem> = match switch {
            Switch::Next => match next_pty(self.list.as_slice(), self.current_id) {
                Some(item) => Some(item.clone()),
                None => None,
            },
            Switch::Previous => match prev_pty(self.list.as_slice(), self.current_id) {
                Some(item) => Some(item.clone()),
                None => None,
            },
            Switch::Recent => {
                let recent = recent_pty(self.list.as_slice(), self.previous_id, self.current_id);
                alone = recent.alone;
                let ghost at: Option<int> = match recent.at {
                    Some(i) => Some(i as int),
                    None => None,
                };
                assert(is_switch_target(m, switch, at));
                match recent.at {
                    Some(i) => Some(self.list[i].clone()),
                    None => None,
                }
            },
            Switch::Index(n) => if (n as usize) < self.list.len() {
                Some(self.list[n as usize].clone())
            } else {
                None
            },
        };
        proof {
            let n = m.list.len() as int;
            if switch == Switch::Next {
                let at = if n == 0 {
                    None
                } else {
                    Some(next_place(m.list, m.current_id))
                };
                assert(is_switch_target(m, switch, at));
            } else if switch == Switch::Previous {
                let at = if n == 0 {
                    None
                } else {
                    Some(prev_place(m.list, m.current_id))
                };
                assert(is_switch_target(m, switch, at));
            } else if switch is Index {
                let at = if (switch->Index_0 as int) < n {
                    Some(switch->Index_0 as int)
                } else {
                    None
                };
                assert(is_switch_target(m, switch, at));
            }
        }
        if let Some(item) = target {
            if item.pty_id != self.current_id {
                self.subscribed = false;
                self.switch_pty(item);
            }
        }
        alone
    }

    /// Takes the user's choice from the list.
    pub fn on_list_choice(&mut self, chosen: Option<u64>)
        ensures
            final(self)@ == (match chosen {
                Some(id) => if id != old(self)@.current_id && place_of(old(self)@.list, id)
                    < old(self)@.list.len() {
                    old(self)@.unsubscribed().switched(
                        old(self)@.list[place_of(old(self)@.list, id)]@,
                    ).listless()
                } else {
                    old(self)@
                },
                None => old(self)@,
            }),
    {
        if let Some(id) = chosen {
            if id != self.current_id {
                let at = find_pty(self.list.as_slice(), id);
                if at < self.list.len() {
                    let target = self.list[at].clone();
                    self.subscribed = false;
                    self.switch_pty(target);
                    self.clear_list();
                }
            }
        }
    }

    /// Takes a handler's wish for another mode. Returns the mode to go on with, where there is one.
    pub fn change_mode(&mut self, result: EventResult) -> (mode: Option<RenderMode>)
        ensures
            mode == (match result {
                EventResult::ChangeRenderMode(m) => Some(m),
                _ => None,
            }),
            final(self)@ == (match result {
                EventResult::ChangeRenderMode(m) => SessionModel { dispatch_mode: m, ..old(self)@ },
                _ => old(self)@,
            }),
    {
        match result {
            EventResult::ChangeRenderMode(m) => {
                self.dispatch_mode = m;
                Some(m)
            },
            _ => None,
        }
    }
}

/// What the client remembers while it paints a PTY.
pub struct RenderLoop {
    /// A snapshot was asked for because output was lost, and has not come yet.
    pub refresh_pending: bool,
    /// The terminal changed its size a moment ago.
    pub debounce_active: bool,
}

/// What an event of the subscription asks for.
pub enum RenderStep {
    /// Nothing.
    Ignore,
    /// Paint output.
    Stream(Vec<u8>),
    /// Paint a screen.
    Refresh { cols: u32, rows: u32, data: Vec<u8> },
    /// Follow a new size.
    Resize { cols: u32, rows: u32 },
    /// Ask for a snapshot.
    RequestRefresh,
    /// The PTY came to its end.
    Closed,
}

/// What an event asks for, and what is known after it.
pub open spec fn render_step(
    pending: bool,
    m: SessionModel,
    event: Option<Event>,
    pending_after: bool,
    after: SessionModel,
    step: RenderStep,
) -> bool {
    match event {
        Some(Event::Data(data)) => step == RenderStep::Stream(data) && after == m && pending_after == pending,
        Some(Event::Refresh(refresh)) => {
            let (cols, rows) = match refresh.size {
                Some(s) => (s.cols, s.rows),
                None => (0u32, 0u32),
            };
            &&& step == RenderStep::Refresh { cols, rows, data: refresh.data }
            &&& after == m.sized(cols, rows)
            &&& !pending_after
        },
        Some(Event::Metadata(Some(MetaEvent::Resized(Some(s))))) => {
            &&& after == m.sized(s.cols, s.rows)
            &&& pending_after == pending
            &&& step == if s.cols > 0 && s.rows > 0 {
                RenderStep::Resize { cols: s.cols, rows: s.rows }
            } else {
                RenderStep::Ignore
            }
        },
        Some(Event::Metadata(Some(MetaEvent::TitleChanged(title)))) => {
            &&& step is Ignore
            &&& after == SessionModel { item: ItemModel { title, ..m.item }, ..m }
            &&& pending_after == pending
        },
        Some(Event::Metadata(Some(MetaEvent::Exited(_)))) => step is Closed && after == m && pending_after
            == pending,
        Some(Event::Metadata(Some(MetaEvent::DataLost))) => {
            &&& after == m
            &&& pending_after
            &&& step == if pending {
                RenderStep::Ignore
            } else {
                RenderStep::RequestRefresh
            }
        },
        _ => step is Ignore && after == m && pending_after == pending,
    }
}

impl RenderLoop {
    pub fn new() -> (render: Self)
        ensures
            !render.refresh_pending,
            !render.debounce_active,
    {
        RenderLoop { refresh_pending: false, debounce_active: false }
    }

    /// Takes an event of the subscription. Output that was lost is made up for by one snapshot at a
    /// time.
    pub fn on_event(&mut self, session: &mut Session, event: Option<Event>) -> (step: RenderStep)
        ensures
            final(self).debounce_active == old(self).debounce_active,
            render_step(
                old(self).refresh_pending,
                old(session)@,
                event,
                final(self).refresh_pending,
                final(session)@,
                step,
            ),
    {
        match event {
            Some(Event::Data(data)) => RenderStep::Stream(data),
            Some(Event::Refresh(refresh)) => {
                self.refresh_pending = false;
                let (cols, rows): (u32, u32) = match refresh.size {
                    Some(s) => (s.cols, s.rows),
                    None => (0, 0),
                };
                session.note_size(cols, rows);
                RenderStep::Refresh { cols, rows, data: refresh.data }
            },
            Some(Event::Metadata(Some(meta))) => match meta {
                MetaEvent::Resized(size) => match size {
                    Some(s) => {
                        session.note_size(s.cols, s.rows);
                        if s.cols > 0 && s.rows > 0 {
                            RenderStep::Resize { cols: s.cols, rows: s.rows }
                        } else {
                            RenderStep::Ignore
                        }
                    },
                    None => RenderStep::Ignore,
                },
                MetaEvent::TitleChanged(title) => {
                    session.current_item.title = title;
                    RenderStep::Ignore
                },
                MetaEvent::Exited(_) => RenderStep::Closed,
                MetaEvent::SubscribersChanged(_) => RenderStep::Ignore,
                MetaEvent::DataLost => {
                    if self.refresh_pending {
                        RenderStep::Ignore
                    } else {
                        self.refresh_pending = true;
                        RenderStep::RequestRefresh
                    }
                },
            },
            _ => RenderStep::Ignore,
        }
    }

    /// Takes what a handler says to a new size of the client's terminal. Where it wants a snapshot,
    /// the subscription is opened again once the size has stood for a while.
    pub fn on_sigwinch(&mut self, result: EventResult)
        ensures
            final(self).refresh_pending == old(self).refresh_pending,
            final(self).debounce_active == (old(self).debounce_active || result
                == EventResult::RequestRefresh),
    {
        if let EventResult::RequestRefresh = result {
            self.debounce_active = true;
        }
    }
}

/// What the end of a subscription means: an end without an error is opened again quietly.
pub fn stream_end(failed: bool) -> (outcome: RunOutcome)
    ensures
        outcome == (if failed {
            RunOutcome::ServerClosed
        } else {
            RunOutcome::Resubscribe
        }),
{
    if failed {
        RunOutcome::ServerClosed
    } else {
        RunOutcome::Resubscribe
    }
}

/// What input means to the session: the end of it is a detach.
pub fn input_outcome(closed: bool, action: Option<InputAction>) -> (outcome: Option<RunOutcome>)
    ensures
        outcome == (if closed {
            Some(RunOutcome::Action(InputAction::Detach))
        } else {
            match action {
                Some(a) => Some(RunOutcome::Action(a)),
                None => None,
            }
        }),
{
    if closed {
        return Some(RunOutcome::Action(InputAction::Detach));
    }
    match action {
        Some(a) => Some(RunOutcome::Action(a)),
        None => None,
    }
}

/// True when a snapshot is due after another mode took over: it had none to begin with.
pub fn repaint_is_due(handed_over: &[u8]) -> (due: bool)
    ensures
        due == (handed_over@.len() == 0),
{
    handed_over.len() == 0
}

/// What is printed of an event, instead of painting it.
pub enum DebugStep {
    /// Print this line.
    Line(Vec<u8>),
    /// Print what was told; at the PTY's end, come to an end too.
    Told { meta: Option<MetaEvent>, exited: bool },
    /// Nothing.
    Ignore,
    /// The subscription ended.
    Closed,
}

/// What is printed of an event; `None` where the subscription ended.
pub open spec fn is_debug_step(event: Option<SubscribeEvent>, step: DebugStep) -> bool {
    match event {
        None => step is Closed,
        Some(e) => match e.event {
            None => step is Ignore,
            Some(Event::Ready(id)) => step matches DebugStep::Line(line) && line@ == bytes_of(
                "[Ready subscriber_id=",
            ) + vstd::utf8::encode_utf8(id@) + bytes_of("]\n"),
            Some(Event::Data(data)) => step matches DebugStep::Line(line) && line@ == bytes_of("[Data len=")
                + decimal(data@.len()) + bytes_of("]\n"),
            Some(Event::Refresh(refresh)) => step matches DebugStep::Line(line) && line@ == bytes_of(
                "[Refresh len=",
            ) + decimal(refresh.data@.len()) + bytes_of(" degraded=") + (if refresh.degraded {
                bytes_of("true")
            } else {
                bytes_of("false")
            }) + bytes_of("]\n"),
            Some(Event::Metadata(meta)) => step == (DebugStep::Told {
                meta,
                exited: meta matches Some(MetaEvent::Exited(_)),
            }),
        },
    }
}

/// Decides what is printed of an event.
pub fn debug_step(event: Option<SubscribeEvent>) -> (step: DebugStep)
    ensures
        is_debug_step(event, step),
{
    let mut line: Vec<u8> = Vec::new();
    match event {
        None => DebugStep::Closed,
        Some(e) => match e.event {
            None => DebugStep::Ignore,
            Some(Event::Ready(id)) => {
                push_str(&mut line, "[Ready subscriber_id=");
                push_str(&mut line, id.as_str());
                push_str(&mut line, "]\n");
                assert(line@ =~= bytes_of("[Ready subscriber_id=") + vstd::utf8::encode_utf8(id@) + bytes_of("]\n"));
                DebugStep::Line(line)
            },
            Some(Event::Data(data)) => {
                push_str(&mut line, "[Data len=");
                push_decimal(&mut line, data.len() as u64);
                push_str(&mut line, "]\n");
                assert(line@ =~= bytes_of("[Data len=") + decimal(data@.len()) + bytes_of("]\n"));
                DebugStep::Line(line)
            },
            Some(Event::Refresh(refresh)) => {
                push_str(&mut line, "[Refresh len=");
                push_decimal(&mut line, refresh.data.len() as u64);
                push_str(&mut line, " degraded=");
                push_str(&mut line, if refresh.degraded { "true" } else { "false" });
                push_str(&mut line, "]\n");
                assert(line@ =~= bytes_of("[Refresh len=") + decimal(refresh.data@.len()) + bytes_of(" degraded=")
                    + (if refresh.degraded {
                    bytes_of("true")
                } else {
                    bytes_of("false")
                }) + bytes_of("]\n"));
                DebugStep::Line(line)
            },
            Some(Event::Metadata(meta)) => {
                let exited = match &meta {
                    Some(MetaEvent::Exited(_)) => true,
                    _ => false,
                };
                DebugStep::Told { meta, exited }
            },
        },
    }
}

/// The id that the server gave a new subscription, which has to be its first word.
pub fn subscriber_id_from(first: Option<SubscribeEvent>) -> (id: Result<String, String>)
    ensures
        match first {
            Some(SubscribeEvent { event: Some(Event::Ready(given)) }) => id == Ok::<String, String>(given),
            Some(_) => id matches Err(reason) && reason@ == "subscribe: first event was not Ready"@,
            None => id matches Err(reason) && reason@ == "server disconnected during subscribe"@,
        },
{
    match first {
        Some(e) => match e.event {
            Some(Event::Ready(given)) => Ok(given),
            _ => Err("subscribe: first event was not Ready".to_owned()),
        },
        None => Err("server disconnected during subscribe".to_owned()),
    }
}

/// What an event means to a client that waits for a snapshot.
pub enum Awaited {
    Snapshot { cols: u32, rows: u32, data: Vec<u8> },
    /// The subscription ended.
    Ended,
    /// It came before the snapshot, which holds it already.
    Discard,
}

/// Tells what an event means to a client that waits for a snapshot.
pub fn await_snapshot(event: Option<SubscribeEvent>) -> (awaited: Awaited)
    ensures
        match event {
            None => awaited is Ended,
            Some(SubscribeEvent { event: Some(Event::Refresh(refresh)) }) => awaited == (Awaited::Snapshot {
                cols: match refresh.size {
                    Some(s) => s.cols,
                    None => 0,
                },
                rows: match refresh.size {
                    Some(s) => s.rows,
                    None => 0,
                },
                data: refresh.data,
            }),
            Some(_) => awaited is Discard,
        },
{
    match event {
        None => Awaited::Ended,
        Some(e) => match e.event {
            Some(Event::Refresh(refresh)) => {
                let (cols, rows): (u32, u32) = match refresh.size {
                    Some(s) => (s.cols, s.rows),
                    None => (0, 0),
                };
                Awaited::Snapshot { cols, rows, data: refresh.data }
            },
            _ => Awaited::Discard,
        },
    }
}

/// What a failure to subscribe means: that the PTY is gone, if the server says so, and otherwise
/// that the connection failed.
pub fn subscribe_failure(code: Option<Code>) -> (result: SubscribeResult)
    ensures
        result == (if code == Some(Code::NotFound) {
            SubscribeResult::Gone
        } else {
            SubscribeResult::Failed
        }),
{
    match code {
        Some(Code::NotFound) => SubscribeResult::Gone,
        _ => SubscribeResult::Failed,
    }
}

/// What came of a request to end a PTY. That it is gone already is as good.
pub fn destroy_outcome(answer: Result<(), Status>) -> (outcome: Result<(), String>)
    ensures
        match answer {
            Ok(_) => outcome is Ok,
            Err(s) => if s.code == Code::NotFound {
                outcome is Ok
            } else {
                outcome matches Err(reason) && reason@ == "Failed to destroy PTY: "@ + s.message@
            },
        },
{
    match answer {
        Ok(_) => Ok(()),
        Err(s) => match s.code {
            Code::NotFound => Ok(()),
            _ => Err("Failed to destroy PTY: ".to_owned().concat(s.message.as_str())),
        },
    }
}

/// Law: to turn to another PTY and then back to the one before leads to where one was.
pub proof fn law_switch_and_back(m: SessionModel, there: ItemModel)
    requires
        m.item.pty_id == m.current_id,
    ensures
        m.switched(there).previous_id == Some(m.current_id),
        m.switched(there).switched(m.item).current_id == m.current_id,
        m.switched(there).switched(m.item).item == m.item,
        m.switched(there).switched(m.item).previous_id == Some(there.pty_id),
{
}

/// Law: the session's id is always that of its PTY.
pub proof fn law_id_is_items(m: SessionModel, target: ItemModel, cols: u32, rows: u32)
    requires
        m.item.pty_id == m.current_id,
    ensures
        m.switched(target).item.pty_id == m.switched(target).current_id,
        m.sized(cols, rows).item.pty_id == m.sized(cols, rows).current_id,
        m.unsubscribed().item.pty_id == m.unsubscribed().current_id,
        m.listless().item.pty_id == m.listless().current_id,
        m.idle_next().item.pty_id == m.idle_next().current_id,
{
}

/// Law: another PTY is never painted through the subscription to the one before.
pub proof fn law_another_pty_is_subscribed_anew(m: SessionModel, at: int)
    requires
        0 <= at < m.list.len(),
    ensures
        m.turned_to(at).current_id != m.current_id ==> !m.turned_to(at).subscribed,
        m.turned_to(at).current_id == m.current_id ==> m.turned_to(at) == m,
{
}

/// Law: however often output is lost, one snapshot is asked for until it comes.
pub proof fn law_lost_output_asks_once(
    m: SessionModel,
    first: RenderStep,
    middle: SessionModel,
    pending: bool,
    second: RenderStep,
    after: SessionModel,
    pending_after: bool,
)
    requires
        render_step(
            false,
            m,
            Some(Event::Metadata(Some(MetaEvent::DataLost))),
            pending,
            middle,
            first,
        ),
        render_step(
            pending,
            middle,
            Some(Event::Metadata(Some(MetaEvent::DataLost))),
            pending_after,
            after,
            second,
        ),
    ensures
        first is RequestRefresh,
        second is Ignore,
        after == m,
        pending_after,
{
}

/// Law: what a PTY puts out reaches the client's painter as it was: its output byte for byte, its
/// screens with their size, a new size as such, and its end as its end.
pub proof fn law_events_reach_the_painter(
    event: PtyEvent,
    sent: SubscribeEvent,
    pending: bool,
    m: SessionModel,
    pending_after: bool,
    after: SessionModel,
    step: RenderStep,
)
    requires
        is_wire_event(sent, event),
        render_step(pending, m, sent.event, pending_after, after, step),
    ensures
        match event {
            PtyEvent::Data(chunk) => step is Stream && step->Stream_0@ == held_bytes(chunk.data) && after == m,
            PtyEvent::Refresh(screen) => shows_screen(step, *screen) && after == m.sized(screen.cols, screen.rows),
            PtyEvent::RefreshFor { data, .. } => shows_screen(step, *data) && after == m.sized(
                data.cols,
                data.rows,
            ),
            PtyEvent::Metadata(meta) => {
                &&& meta.reason == MetadataReason::Closed ==> step is Closed && after == m
                &&& meta.reason == MetadataReason::TitleChanged ==> step is Ignore && after.item.title
                    == meta.info.title
                &&& meta.reason == MetadataReason::Resize && meta.info.cols > 0 && meta.info.rows > 0 ==> step
                    == (RenderStep::Resize { cols: meta.info.cols, rows: meta.info.rows }) && after
                    == m.sized(meta.info.cols, meta.info.rows)
            },
        },
{
}

/// True when a step paints this screen.
pub open spec fn shows_screen(step: RenderStep, screen: RefreshData) -> bool {
    &&& step is Refresh
    &&& step->Refresh_data@ == held_bytes(screen.data)
    &&& step->Refresh_cols == screen.cols
    &&& step->Refresh_rows == screen.rows
}

/// Law: a session turned to another PTY is at that PTY and remembers the one before; the new one is
/// subscribed to anew. Nothing else changes.
pub proof fn law_turning(m: SessionModel, target: ItemModel)
    ensures
        m.switched(target).current_id == target.pty_id,
        m.switched(target).item == target,
        m.switched(target).previous_id == Some(m.current_id),
        m.switched(target).list == m.list,
        m.switched(target).mode == m.mode,
        m.switched(target).dispatch_mode == m.dispatch_mode,
        !m.unsubscribed().subscribed,
        m.unsubscribed().current_id == m.current_id,
        m.listless().list.len() == 0,
        m.idle_next().skip_subscribe,
{
}

/// Law: where a key leads to. By its number to the PTY at that place of the list as the server orders it,
/// the first of which is zero; next and previous to the neighbours there. Where that is the current PTY,
/// or there is none, the session stays with the current one and its subscription.
pub proof fn law_switching(session: &mut Session, switch: Switch, fetched: Vec<PtyItem>, alone: bool, at: int)
    requires
        call_ensures(Session::on_switch, (session, switch, fetched), alone),
        0 <= at < fetched@.len(),
        in_order(fetched@)[at].pty_id == old(session)@.current_id,
        forall|i: int| 0 <= i < at ==> (#[trigger] in_order(fetched@)[i]).pty_id != old(session)@.current_id,
    ensures
        ({
            let list = in_order(fetched@);
            let now = final(session)@;
            let was = old(session)@;
            let goes_to = |place: int|
                {
                    &&& now.current_id == list[place].pty_id
                    &&& list[place].pty_id != was.current_id ==> now.item == list[place]@ && now.previous_id == Some(
                        was.current_id,
                    ) && !now.subscribed
                    &&& list[place].pty_id == was.current_id ==> now.previous_id == was.previous_id && now.subscribed
                        == was.subscribed
                };
            &&& now.list == list
            &&& now.mode == was.mode && now.dispatch_mode == was.dispatch_mode
            &&& switch matches Switch::Index(n) ==> (n < list.len() ==> goes_to(n as int))
            &&& switch matches Switch::Index(n) ==> (n >= list.len() ==> now.current_id == was.current_id && now.subscribed
                == was.subscribed)
            &&& switch == Switch::Next ==> goes_to(if at + 1 < list.len() {
                at + 1
            } else {
                0
            })
            &&& switch == Switch::Previous ==> goes_to(if at > 0 {
                at - 1
            } else {
                list.len() - 1
            })
            &&& switch != Switch::Recent ==> !alone
        }),
{
    let list = in_order(fetched@);
    crate::order::law_in_order(fetched@);
    super::list::law_neighbours(list, old(session)@.current_id, at);
    let m = SessionModel { list, ..old(session)@ };
    let k = choose|k: Option<int>|
        #![trigger is_switch_target(m, switch, k)]
        is_switch_target(m, switch, k) && final(session)@ == (match k {
            Some(i) => m.turned_to(i),
            None => m,
        });
    assert(is_switch_target(m, switch, k));
}

/// Law: going back and forth. The key for the recent PTY leads to the one before where it is still there,
/// and the same key from there leads back.
pub proof fn law_back_and_forth(session: &mut Session, fetched: Vec<PtyItem>, alone: bool, before: u64, i: int)
    requires
        call_ensures(Session::on_switch, (session, Switch::Recent, fetched), alone),
        old(session)@.previous_id == Some(before),
        before != old(session)@.current_id,
        0 <= i < fetched@.len(),
        in_order(fetched@)[i].pty_id == before,
    ensures
        final(session)@.current_id == before,
        final(session)@.previous_id == Some(old(session)@.current_id),
        !final(session)@.subscribed,
        !alone,
{
    let list = in_order(fetched@);
    crate::order::law_in_order(fetched@);
    let m = SessionModel { list, ..old(session)@ };
    super::list::law_place_of(list, before);
    assert(place_of(list, before) <= i);
    let k = choose|k: Option<int>|
        #![trigger is_switch_target(m, Switch::Recent, k)]
        is_switch_target(m, Switch::Recent, k) && final(session)@ == (match k {
            Some(i) => m.turned_to(i),
            None => m,
        });
    assert(is_switch_target(m, Switch::Recent, k));
    assert(k == Some(place_of(list, before)));
}

/// Law: a PTY that the user chose from the list is the one that the session turns to. A choice that is not
/// in the list, the current PTY, or none at all change nothing; after the end of a PTY, none means to go on
/// without one.
pub proof fn law_choosing(session: &mut Session, other: &mut Session, chosen: Option<u64>, i: int)
    requires
        call_ensures(Session::on_list_choice, (session, chosen), ()),
        call_ensures(Session::on_closed_choice, (other, chosen), ()),
        *old(session) == *old(other),
        0 <= i < old(session)@.list.len(),
    ensures
        chosen == Some(old(session)@.list[i].pty_id) && chosen != Some(old(session)@.current_id) ==> {
            &&& Some(final(session)@.current_id) == chosen
            &&& final(session)@.item.pty_id == final(session)@.current_id
            &&& final(session)@.previous_id == Some(old(session)@.current_id)
            &&& !final(session)@.subscribed
        },
        chosen == Some(old(session)@.list[i].pty_id) ==> Some(final(other)@.current_id) == chosen
            && final(other)@.previous_id == Some(old(session)@.current_id) && final(other)@.skip_subscribe
            == old(other)@.skip_subscribe,
        chosen == Some(old(session)@.current_id) ==> final(session)@ == old(session)@,
        chosen is None ==> final(session)@ == old(session)@ && final(other)@ == (SessionModel {
            skip_subscribe: true,
            ..old(other)@
        }),
        chosen matches Some(id) ==> ((forall|k: int|
            0 <= k < old(session)@.list.len() ==> (#[trigger] old(session)@.list[k]).pty_id != id) ==> final(session)@
            == old(session)@ && final(other)@ == old(other)@),
{
    if let Some(id) = chosen {
        let list = old(session)@.list;
        super::list::law_place_of(list, id);
        if list[i].pty_id == id {
            assert(place_of(list, id) <= i);
        }
        if place_of(list, id) < list.len() {
            assert(list[place_of(list, id)].pty_id == id);
        }
    }
}

/// Law: after the current PTY was ended, the session goes on with another one where there is one to go back
/// to, and otherwise without a PTY; never with the one that was ended.
pub proof fn law_after_the_end(session: &mut Session, fetched: Option<Vec<PtyItem>>, alone: bool)
    requires
        call_ensures(Session::on_destroyed, (session, fetched), alone),
    ensures
        !final(session)@.subscribed,
        fetched is None ==> final(session)@.skip_subscribe && final(session)@.list.len() == 0 && !alone,
        final(session)@.current_id != old(session)@.current_id ==> final(session)@.previous_id == Some(
            old(session)@.current_id,
        ) && final(session)@.list.len() == 0,
        final(session)@.current_id == old(session)@.current_id ==> final(session)@.skip_subscribe,
        old(session)@.previous_id is None ==> final(session)@.skip_subscribe,
{
    if let Some(items) = fetched {
        let m = SessionModel { list: in_order(items@), ..old(session)@.unsubscribed() };
        let at = choose|at: Option<int>|
            #![trigger is_recent(m.list, m.previous_id, m.current_id, at)]
            is_recent(m.list, m.previous_id, m.current_id, at) && final(session)@ == (if at is Some
                && m.list[at->0].pty_id != m.current_id {
                m.switched(m.list[at->0]@).listless()
            } else {
                m.idle_next()
            });
        assert(is_recent(m.list, m.previous_id, m.current_id, at));
    }
}

/// Law: a size that the server tells is that of the PTY from then on; a size of nothing is no size.
pub proof fn law_sizes_are_noted(m: SessionModel, cols: u32, rows: u32)
    ensures
        cols > 0 && rows > 0 ==> m.sized(cols, rows).item.size == Some(Size { cols, rows }),
        cols == 0 || rows == 0 ==> m.sized(cols, rows) == m,
        m.sized(cols, rows).current_id == m.current_id,
        m.sized(cols, rows).item.title == m.item.title,
        m.sized(cols, rows).list == m.list,
{
}

/// Law: how a session opens a PTY. One that is not subscribed to is subscribed to, one that is gets a
/// snapshot, and one round is spent without a PTY where that is due. A PTY that is gone is not subscribed
/// to any more and leaves no list behind; a failed connection changes nothing.
pub proof fn law_opening(
    session: &mut Session,
    begin: Begin,
    opened: &mut Session,
    result: SubscribeResult,
    opening: Opening,
    refreshed: &mut Session,
    snapshot: RefreshResult,
    shown: Opening,
)
    requires
        call_ensures(Session::begin, (session,), begin),
        call_ensures(Session::on_subscribed, (opened, result), opening),
        call_ensures(Session::on_refreshed, (refreshed, snapshot), shown),
    ensures
        old(session)@.skip_subscribe ==> begin == Begin::Idle && !final(session)@.skip_subscribe
            && !final(session)@.subscribed,
        !old(session)@.skip_subscribe && old(session)@.subscribed ==> begin == Begin::Refresh,
        !old(session)@.skip_subscribe && !old(session)@.subscribed ==> begin == Begin::Subscribe,
        final(session)@.current_id == old(session)@.current_id,
        result == SubscribeResult::Opened ==> opening == Opening::Refresh && final(opened)@.subscribed,
        result == SubscribeResult::Gone ==> opening == Opening::PtyGone && !final(opened)@.subscribed
            && final(opened)@.list.len() == 0,
        result == SubscribeResult::Failed ==> opening == Opening::Reconnect && final(opened)@ == old(opened)@,
        final(opened)@.current_id == old(opened)@.current_id,
        snapshot matches RefreshResult::Snapshot { cols, rows } ==> shown == Opening::Render && (cols > 0 && rows > 0
            ==> final(refreshed)@.item.size == Some(Size { cols, rows })),
        snapshot == RefreshResult::Ended ==> shown == Opening::PtyGone && !final(refreshed)@.subscribed,
        snapshot == RefreshResult::Failed ==> shown == Opening::Reconnect && final(refreshed)@ == old(refreshed)@,
{
}

/// Law: what the client waits for. The first word of a subscription has to be its id; of what follows a
/// request for a snapshot only the snapshot counts, with its size and its bytes; an end is an end.
pub proof fn law_waiting(event: Option<SubscribeEvent>, id: Result<String, String>, awaited: Awaited)
    requires
        call_ensures(subscriber_id_from, (event,), id),
        call_ensures(await_snapshot, (event,), awaited),
    ensures
        event is None ==> id is Err && awaited is Ended,
        event matches Some(e) ==> (e.event matches Some(Event::Ready(given)) ==> id == Ok::<String, String>(given)),
        event matches Some(e) ==> (!(e.event matches Some(Event::Ready(_))) ==> id is Err),
        event matches Some(e) ==> (e.event matches Some(Event::Refresh(r)) ==> (
        awaited matches Awaited::Snapshot { cols, rows, data } && data == r.data && (r.size matches Some(s) ==> cols
            == s.cols && rows == s.rows) && (r.size is None ==> cols == 0 && rows == 0))),
        event matches Some(e) ==> (!(e.event matches Some(Event::Refresh(_))) ==> awaited is Discard),
{
}

/// Law: only a PTY that the server does not know is gone; every other failure is one of the connection.
/// To end a PTY that is gone already is to have ended it.
pub proof fn law_gone_or_failed(code: Option<Code>, result: SubscribeResult, answer: Result<(), Status>, outcome: Result<(), String>)
    requires
        call_ensures(subscribe_failure, (code,), result),
        call_ensures(destroy_outcome, (answer,), outcome),
    ensures
        (result == SubscribeResult::Gone) == (code == Some(Code::NotFound)),
        result != SubscribeResult::Opened,
        answer is Ok ==> outcome is Ok,
        answer matches Err(s) ==> (outcome is Ok) == (s.code == Code::NotFound),
        answer matches Err(s) ==> (outcome matches Err(reason) ==> reason@ == "Failed to destroy PTY: "@ + s.message@),
{
}

/// Law: a handler that wishes for another mode has the session go on in that mode, and the rest of it as it is;
/// only the two modes that pass output on are handed over to.
pub proof fn law_changing_modes(session: &mut Session, result: EventResult, mode: Option<RenderMode>, from: RenderMode, to: Option<RenderMode>)
    requires
        call_ensures(Session::change_mode, (session, result), mode),
        call_ensures(upgrade_to, (from,), to),
    ensures
        result matches EventResult::ChangeRenderMode(m) ==> mode == Some(m) && final(session)@.dispatch_mode == m,
        !(result is ChangeRenderMode) ==> mode is None && final(session)@ == old(session)@,
        final(session)@.mode == old(session)@.mode,
        final(session)@.current_id == old(session)@.current_id,
        final(session)@.subscribed == old(session)@.subscribed,
        to is Some <==> from == RenderMode::Region || from == RenderMode::Autowrap,
        to matches Some(t) ==> t == from,
{
}

/// Law: a subscription that failed is a lost server, and one that just ended is opened again; the end of input is
/// a detach, and otherwise an action is what its key says, and without one the session goes on. Another mode that
/// was handed nothing to paint is sent a snapshot.
pub proof fn law_ends_and_actions(
    failed: bool,
    end: RunOutcome,
    closed: bool,
    action: Option<InputAction>,
    outcome: Option<RunOutcome>,
    handed_over: &[u8],
    due: bool,
)
    requires
        call_ensures(stream_end, (failed,), end),
        call_ensures(input_outcome, (closed, action), outcome),
        call_ensures(repaint_is_due, (handed_over,), due),
    ensures
        failed ==> end == RunOutcome::ServerClosed,
        !failed ==> end == RunOutcome::Resubscribe,
        closed ==> outcome == Some(RunOutcome::Action(InputAction::Detach)),
        !closed ==> (action matches Some(a) ==> outcome == Some(RunOutcome::Action(a))),
        !closed && action is None ==> outcome is None,
        due <==> handed_over@.len() == 0,
{
}

/// Law: what is printed of events: how much output there was, how large a screen, and whose subscription it is;
/// the end of the program is told as such, and the end of the events ends the printing.
pub proof fn law_printed_events(event: SubscribeEvent, step: DebugStep, end: DebugStep)
    requires
        call_ensures(debug_step, (Some(event),), step),
        call_ensures(debug_step, (None,), end),
    ensures
        end is Closed,
        event.event is None ==> step is Ignore,
        event.event matches Some(Event::Data(data)) ==> (step matches DebugStep::Line(line) && line@ == bytes_of(
            "[Data len=",
        ) + decimal(data@.len()) + bytes_of("]\n")),
        event.event matches Some(Event::Ready(id)) ==> (step matches DebugStep::Line(line) && line@ == bytes_of(
            "[Ready subscriber_id=",
        ) + vstd::utf8::encode_utf8(id@) + bytes_of("]\n")),
        event.event matches Some(Event::Refresh(refresh)) ==> (step matches DebugStep::Line(line) && (
        !refresh.degraded ==> line@ == bytes_of("[Refresh len=") + decimal(refresh.data@.len()) + bytes_of(" degraded=")
            + bytes_of("false") + bytes_of("]\n"))),
        event.event matches Some(Event::Metadata(meta)) ==> (step matches DebugStep::Told { meta: told, exited } && told
            == meta && (exited <==> meta matches Some(MetaEvent::Exited(_)))),
{
}

/// Law: a session begins with the PTY that it was given, in the mode that it was given, not yet subscribed; its
/// first round subscribes.
pub proof fn law_sessions_begin(item: PtyItem, mode: RenderMode, session: Session, first: &mut Session, begin: Begin)
    requires
        call_ensures(Session::new, (item, mode), session),
        *old(first) == session,
        call_ensures(Session::begin, (first,), begin),
    ensures
        session@.current_id == item.pty_id,
        session@.item == item@,
        session@.mode == mode && session@.dispatch_mode == mode,
        session@.previous_id is None,
        session@.list.len() == 0,
        begin == Begin::Subscribe,
        final(first)@ == session@,
{
}

/// Law: after a lost connection is back, the PTY is subscribed to anew; where the user gave up, the session ends.
/// A PTY that was just created is turned to, and is subscribed to anew as well.
pub proof fn law_after_connecting(
    session: &mut Session,
    back: bool,
    goes_on: bool,
    again: &mut Session,
    begin: Begin,
    creating: &mut Session,
    item: PtyItem,
)
    requires
        call_ensures(Session::on_reconnected, (session, back), goes_on),
        !old(session)@.skip_subscribe,
        *old(again) == *final(session),
        call_ensures(Session::begin, (again,), begin),
        call_ensures(Session::on_created, (creating, item), ()),
    ensures
        goes_on == back,
        back ==> begin == Begin::Subscribe,
        final(session)@.current_id == old(session)@.current_id,
        final(session)@.item == old(session)@.item,
        final(session)@.list == old(session)@.list,
        final(session)@.previous_id == old(session)@.previous_id,
        final(creating)@.current_id == item.pty_id,
        final(creating)@.item == item@,
        final(creating)@.previous_id == Some(old(creating)@.current_id),
        !final(creating)@.subscribed,
        final(creating)@.list.len() == 0,
        final(creating)@.mode == old(creating)@.mode,
{
}

/// Law: what follows when the client stopped to paint a PTY for another reason than a key. A lost connection is
/// waited for; the end of the client's terminal ends the session; a PTY that came to its end is not subscribed to
/// any more and leaves no list; a subscription that ended is opened again.
pub proof fn law_outcomes(session: &mut Session, outcome: RunOutcome, step: OutcomeStep)
    requires
        call_ensures(Session::on_outcome, (session, outcome), step),
    ensures
        outcome == RunOutcome::ServerClosed ==> step == OutcomeStep::Reconnect && final(session)@ == old(session)@,
        outcome == RunOutcome::OutputClosed ==> step == OutcomeStep::End,
        outcome == RunOutcome::PtyClosed ==> step == OutcomeStep::PtyClosed && !final(session)@.subscribed
            && final(session)@.list.len() == 0,
        outcome == RunOutcome::Resubscribe ==> step == OutcomeStep::Again && !final(session)@.subscribed,
        final(session)@.current_id == old(session)@.current_id,
        final(session)@.item == old(session)@.item,
        final(session)@.previous_id == old(session)@.previous_id,
        final(session)@.skip_subscribe == old(session)@.skip_subscribe,
        final(session)@.mode == old(session)@.mode && final(session)@.dispatch_mode == old(session)@.dispatch_mode,
{
}

/// Law: what the keys lead to. None of them changes the session by itself; a snapshot and the history can be had
/// only of a PTY that is subscribed to, and the history is shown on as many rows as the PTY has.
pub proof fn law_actions(session: &mut Session, action: InputAction, step: OutcomeStep)
    requires
        call_ensures(Session::on_outcome, (session, RunOutcome::Action(action)), step),
    ensures
        final(session)@ == old(session)@,
        action == InputAction::Detach ==> step == OutcomeStep::End,
        action == InputAction::Destroy ==> step == OutcomeStep::Destroy,
        action == InputAction::Create ==> step == OutcomeStep::Create,
        action == InputAction::ForceResize ==> step == OutcomeStep::Resize,
        action == InputAction::ForceRefresh && old(session)@.subscribed ==> step == OutcomeStep::Refresh,
        action == InputAction::ForceRefresh && !old(session)@.subscribed ==> step == OutcomeStep::Again,
        action == InputAction::SwitchNext ==> step == OutcomeStep::Switch(Switch::Next),
        action == InputAction::SwitchPrevious ==> step == OutcomeStep::Switch(Switch::Previous),
        action == InputAction::SwitchRecent ==> step == OutcomeStep::Switch(Switch::Recent),
        action matches InputAction::SwitchIndex(n) ==> step == OutcomeStep::Switch(Switch::Index(n)),
        action == InputAction::ShowList ==> step == OutcomeStep::ShowList,
        action == InputAction::ShowInfo ==> step == OutcomeStep::ShowInfo,
        action == InputAction::ShowHelp ==> step == OutcomeStep::ShowHelp,
        action == InputAction::ShowScrollback && !old(session)@.subscribed ==> step == OutcomeStep::Again,
        action == InputAction::ShowScrollback && old(session)@.subscribed ==> (old(session)@.item.size matches Some(s)
            ==> step == (OutcomeStep::ShowScrollback { rows: s.rows })),
{
}

/// Law: a list that was fetched is the session's list from then on, in the server's order, and is opened if there
/// is anything in it; one that could not be fetched changes nothing.
pub proof fn law_lists_open(
    session: &mut Session,
    fetched: Vec<PtyItem>,
    opening: ListOpening,
    taking: &mut Session,
    failing: &mut Session,
    failed: ListOpening,
    i: int,
    j: int,
)
    requires
        call_ensures(Session::open_list, (session, Some(fetched)), opening),
        call_ensures(Session::set_list, (taking, fetched), ()),
        call_ensures(Session::open_list, (failing, None), failed),
    ensures
        final(session)@.list.to_multiset() == fetched@.to_multiset(),
        final(taking)@.list == final(session)@.list,
        0 <= i <= j < final(session)@.list.len() ==> final(session)@.list[i].sort_order
            <= final(session)@.list[j].sort_order,
        fetched@.len() == 0 <==> opening is Empty,
        fetched@.len() > 0 ==> (opening matches ListOpening::Screen(screen) && screen.selected < fetched@.len()),
        final(session)@.current_id == old(session)@.current_id,
        final(session)@.subscribed == old(session)@.subscribed,
        failed is Failed && final(failing)@ == old(failing)@,
{
    crate::order::law_in_order(fetched@);
    let list = in_order(fetched@);
    if 0 <= i <= j < list.len() {
        assert(crate::order::Keyed::key(&list[i]) <= crate::order::Keyed::key(&list[j]));
    }
}

/// Law: a wish for a snapshot after the terminal changed its size waits until it has settled, and is not taken
/// back by what comes meanwhile; a painter begins with neither a wait nor a snapshot under way.
pub proof fn law_settling(render: &mut RenderLoop, result: EventResult, fresh: RenderLoop)
    requires
        call_ensures(RenderLoop::on_sigwinch, (render, result), ()),
        call_ensures(RenderLoop::new, (), fresh),
    ensures
        result == EventResult::RequestRefresh ==> final(render).debounce_active,
        result != EventResult::RequestRefresh ==> final(render).debounce_active == old(render).debounce_active,
        old(render).debounce_active ==> final(render).debounce_active,
        final(render).refresh_pending == old(render).refresh_pending,
        !fresh.refresh_pending && !fresh.debounce_active,
{
}

/// Law: what an event leads to in the painter. Output and screens are painted as they come; a screen makes up for
/// what was lost; a new title is the title; the end of the program is the end.
pub proof fn law_painting(
    render: &mut RenderLoop,
    session: &mut Session,
    event: Event,
    step: RenderStep,
    idle: &mut RenderLoop,
    same: &mut Session,
    nothing: RenderStep,
)
    requires
        call_ensures(RenderLoop::on_event, (render, session, Some(event)), step),
        call_ensures(RenderLoop::on_event, (idle, same, None), nothing),
    ensures
        event matches Event::Data(data) ==> step == RenderStep::Stream(data) && final(session)@ == old(session)@
            && final(render).refresh_pending == old(render).refresh_pending,
        event matches Event::Refresh(r) ==> !final(render).refresh_pending && (step matches RenderStep::Refresh {
            cols,
            rows,
            data,
        } && data == r.data && (r.size matches Some(s) ==> cols == s.cols && rows == s.rows)),
        event matches Event::Metadata(Some(MetaEvent::TitleChanged(title))) ==> final(session)@.item.title == title,
        event matches Event::Metadata(Some(MetaEvent::Exited(_))) ==> step is Closed,
        event == Event::Metadata(Some(MetaEvent::DataLost)) && !old(render).refresh_pending ==> step is RequestRefresh
            && final(render).refresh_pending,
        event == Event::Metadata(Some(MetaEvent::DataLost)) && old(render).refresh_pending ==> step is Ignore
            && final(render).refresh_pending,
        final(session)@.current_id == old(session)@.current_id,
        final(session)@.subscribed == old(session)@.subscribed,
        final(session)@.list == old(session)@.list,
        final(render).debounce_active == old(render).debounce_active,
        nothing is Ignore && final(same)@ == old(same)@,
{
}

} // verus!
