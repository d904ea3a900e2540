//! The hidden text field that summons the on-screen keyboard of a touch device,
//! and the events that it captures.

use vstd::prelude::*;

use crate::text::same_text;

verus! {

/// Keys that the field reports.
#[derive(Clone, Copy, PartialEq, Eq, Structural)]
pub enum AgentKey {
    Backspace,
    Enter,
}

/// An event for the user interface.
pub enum AgentEvent {
    Text(String),
    Key { key: AgentKey, pressed: bool },
}

pub enum EventModel {
    Text(Seq<char>),
    Key { key: AgentKey, pressed: bool },
}

impl View for AgentEvent {
    type V = EventModel;

    open spec fn view(&self) -> EventModel {
        match *self {
            AgentEvent::Text(t) => EventModel::Text(t@),
            AgentEvent::Key { key, pressed } => EventModel::Key { key, pressed },
        }
    }
}

pub open spec fn events_view(list: Seq<AgentEvent>) -> Seq<EventModel> {
    list.map_values(|e: AgentEvent| e@)
}

/// A keystroke: the key goes down and up again.
pub open spec fn keystroke(key: AgentKey) -> Seq<EventModel> {
    seq![EventModel::Key { key, pressed: true }, EventModel::Key { key, pressed: false }]
}

/// What an input event of the field makes. A deletion is a keystroke of its own;
/// empty text makes nothing.
pub open spec fn input_events(input_type: Seq<char>, data: Option<Seq<char>>) -> Seq<EventModel> {
    if input_type == "deleteContentBackward"@ {
        keystroke(AgentKey::Backspace)
    } else {
        match data {
            Some(t) => if t.len() > 0 {
                seq![EventModel::Text(t)]
            } else {
                seq![]
            },
            None => seq![],
        }
    }
}

/// What a key event of the field makes.
pub open spec fn keydown_events(key: Seq<char>) -> Seq<EventModel> {
    if key == "Backspace"@ {
        keystroke(AgentKey::Backspace)
    } else if key == "Enter"@ {
        keystroke(AgentKey::Enter)
    } else {
        seq![]
    }
}

/// What to do with the field's focus.
#[derive(Clone, Copy, PartialEq, Eq, Structural)]
pub enum FocusChange {
    Keep,
    Focus,
    Blur,
}

/// The events captured since they were last drained.
pub struct TextAgent {
    pub events: Vec<AgentEvent>,
}

fn push_key(queue: &mut Vec<AgentEvent>, key: AgentKey)
    ensures
        events_view(final(queue)@) == events_view(old(queue)@) + keystroke(key),
{
    queue.push(AgentEvent::Key { key, pressed: true });
    queue.push(AgentEvent::Key { key, pressed: false });
    assert(events_view(queue@) == events_view(old(queue)@) + keystroke(key));
}

pub open spec fn data_view(data: Option<&str>) -> Option<Seq<char>> {
    match data {
        Some(t) => Some(t@),
        None => None,
    }
}

impl TextAgent {
    /// The agent, on a device that can be touched. Elsewhere it would only take
    /// the focus away.
    pub fn install(max_touch_points: i32) -> (r: Option<Self>)
        ensures
            match r {
                Some(a) => max_touch_points > 0 && a.events@.len() == 0,
                None => max_touch_points <= 0,
            },
    {
        if max_touch_points <= 0 {
            return None;
        }
        Some(TextAgent { events: Vec::new() })
    }

    pub fn on_input(&mut self, input_type: &str, data: Option<&str>)
        ensures
            events_view(final(self).events@) == events_view(old(self).events@) + input_events(
                input_type@,
                data_view(data),
            ),
    {
        if same_text(input_type, "deleteContentBackward") {
            push_key(&mut self.events, AgentKey::Backspace);
        } else if let Some(text) = data {
            if !text.is_empty() {
                let event = AgentEvent::Text(text.to_owned());
                self.events.push(event);
            }
        }
        assert(events_view(self.events@) == events_view(old(self).events@) + input_events(
            input_type@,
            data_view(data),
        ));
    }

    pub fn on_keydown(&mut self, key: &str)
        ensures
            events_view(final(self).events@) == events_view(old(self).events@) + keydown_events(
                key@,
            ),
    {
        if same_text(key, "Backspace") {
            push_key(&mut self.events, AgentKey::Backspace);
        } else if same_text(key, "Enter") {
            push_key(&mut self.events, AgentKey::Enter);
        }
        assert(events_view(self.events@) == events_view(old(self).events@) + keydown_events(key@));
    }

    /// Appends what was captured to the frame's events, and forgets it.
    pub fn drain_into(&mut self, raw_events: &mut Vec<AgentEvent>)
        ensures
            final(raw_events)@ == old(raw_events)@ + old(self).events@,
            final(self).events@.len() == 0,
    {
        raw_events.append(&mut self.events);
    }

    /// Keeps the field's focus in step with the user interface.
    pub fn set_focus(focus: bool, agent_focused: bool) -> (r: FocusChange)
        ensures
            r == if focus && !agent_focused {
                FocusChange::Focus
            } else if !focus && agent_focused {
                FocusChange::Blur
            } else {
                FocusChange::Keep
            },
    {
        if focus && !agent_focused {
            FocusChange::Focus
        } else if !focus && agent_focused {
            FocusChange::Blur
        } else {
            FocusChange::Keep
        }
    }
}

/// Whether an event belongs to a key.
pub open spec fn is_of_key(e: EventModel, key: AgentKey) -> bool {
    e matches EventModel::Key { key: k, .. } && k == key
}

/// A key that is captured goes down and then up; no other key makes anything.
pub proof fn keys_go_down_and_up(name: Seq<char>)
    ensures
        ({
            let e = keydown_events(name);
            &&& e.len() == 2 || e.len() == 0
            &&& e.len() == 2 <==> name == "Backspace"@ || name == "Enter"@
            &&& e.len() == 2 ==> e[0]->pressed && !e[1]->pressed
            &&& name == "Backspace"@ ==> is_of_key(e[0], AgentKey::Backspace) && is_of_key(
                e[1],
                AgentKey::Backspace,
            )
            &&& name == "Enter"@ ==> is_of_key(e[0], AgentKey::Enter) && is_of_key(
                e[1],
                AgentKey::Enter,
            )
        }),
{
    reveal_strlit("Backspace");
    reveal_strlit("Enter");
    assert("Backspace"@.len() == 9 && "Enter"@.len() == 5);
}

/// Text that is typed arrives as it is, once; empty text and no text make nothing. A
/// deletion makes what the key for it makes, whatever text comes with it.
pub proof fn typed_text_arrives_once(input_type: Seq<char>, text: Seq<char>)
    ensures
        input_type != "deleteContentBackward"@ && text.len() > 0 ==> input_events(
            input_type,
            Some(text),
        ) == seq![EventModel::Text(text)],
        input_type != "deleteContentBackward"@ && text.len() == 0 ==> input_events(
            input_type,
            Some(text),
        ).len() == 0,
        input_type != "deleteContentBackward"@ ==> input_events(input_type, None).len() == 0,
        input_type == "deleteContentBackward"@ ==> input_events(input_type, Some(text))
            == keydown_events("Backspace"@) && input_events(input_type, None) == keydown_events(
            "Backspace"@,
        ),
{
    reveal_strlit("Backspace");
    reveal_strlit("Enter");
    assert("Backspace"@.len() == 9 && "Enter"@.len() == 5);
}

/// The field's focus follows the user interface: afterwards the field has the focus
/// exactly where it is wanted, and nothing changes where it already is so.
pub proof fn focus_follows_the_interface(focus: bool, focused: bool, r: FocusChange)
    requires
        call_ensures(TextAgent::set_focus, (focus, focused), r),
    ensures
        r == FocusChange::Focus || (r == FocusChange::Keep && focused) <==> focus,
        r == FocusChange::Keep <==> focus == focused,
{
}

/// There is an agent exactly where something can be touched, and it starts with no
/// events.
pub proof fn the_agent_is_for_touch(points: i32, r: Option<TextAgent>)
    requires
        call_ensures(TextAgent::install, (points,), r),
    ensures
        r is Some <==> points > 0,
        r matches Some(a) ==> a.events@.len() == 0,
{
}

/// What is captured waits in order behind what was captured before: text once and as it
/// is, a deletion as its key going down and up, and nothing for nothing.
pub proof fn input_is_captured_in_order(
    agent: &mut TextAgent,
    input_type: &str,
    data: Option<&str>,
)
    requires
        call_ensures(TextAgent::on_input, (agent, input_type, data), ()),
    ensures
        ({
            let before = events_view(old(agent).events@);
            let after = events_view(final(agent).events@);
            let deletes = input_type@ == "deleteContentBackward"@;
            &&& before.is_prefix_of(after)
            &&& deletes ==> after == before.push(
                EventModel::Key { key: AgentKey::Backspace, pressed: true },
            ).push(EventModel::Key { key: AgentKey::Backspace, pressed: false })
            &&& !deletes && (data matches Some(t) && t@.len() > 0) ==> after == before.push(
                EventModel::Text(data->0@),
            )
            &&& !deletes && (data is None || data->0@.len() == 0) ==> after == before
        }),
{
    let before = events_view(old(agent).events@);
    let after = events_view(final(agent).events@);
    assert(before.is_prefix_of(after));
}

/// A key is captured behind what was captured before, as going down and up; a key that
/// is not captured leaves everything as it was.
pub proof fn keys_are_captured_in_order(agent: &mut TextAgent, key: &str)
    requires
        call_ensures(TextAgent::on_keydown, (agent, key), ()),
    ensures
        ({
            let before = events_view(old(agent).events@);
            let after = events_view(final(agent).events@);
            &&& key@ == "Backspace"@ ==> after == before.push(
                EventModel::Key { key: AgentKey::Backspace, pressed: true },
            ).push(EventModel::Key { key: AgentKey::Backspace, pressed: false })
            &&& key@ == "Enter"@ ==> after == before.push(
                EventModel::Key { key: AgentKey::Enter, pressed: true },
            ).push(EventModel::Key { key: AgentKey::Enter, pressed: false })
            &&& key@ != "Backspace"@ && key@ != "Enter"@ ==> after == before
        }),
{
    reveal_strlit("Backspace");
    reveal_strlit("Enter");
    assert("Backspace"@.len() == 9 && "Enter"@.len() == 5);
}

/// Draining hands every captured event over once, in order, behind those of the frame.
pub proof fn events_are_handed_over_once(agent: &mut TextAgent, raw: &mut Vec<AgentEvent>)
    requires
        call_ensures(TextAgent::drain_into, (agent, raw), ()),
    ensures
        final(raw)@ == old(raw)@ + old(agent).events@,
        final(agent).events@.len() == 0,
{
}

} // verus!
