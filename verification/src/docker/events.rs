//! Containers that start, stop and restart.

use super::clock::{self, unix_nanos_to_normalized_rfc3339};
use super::http::{self, text_or};
use super::json::{self, int_at, read_value, text_at, text_at2, text_at3, JsonView, Step};
use super::wire::{DockerLogMsg, MsgView, StreamType};
use crate::logitem;
use crate::text::{self, chars_of, same_str, string_of, strip, Class};
use vstd::prelude::*;

verus! {

/// What follows from an event: how the container stands now, the line that tells
/// of it, and whether its log is to be read from now on.
pub struct Effect {
    pub container_id: String,
    pub is_running: bool,
    pub has_error: bool,
    pub message: DockerLogMsg,
    pub follow: bool,
}

/// What an effect holds.
#[verifier::ext_equal]
pub struct EffectView {
    pub container_id: Seq<char>,
    pub is_running: bool,
    pub has_error: bool,
    pub message: MsgView,
    pub follow: bool,
}

impl View for Effect {
    type V = EffectView;

    open spec fn view(&self) -> EffectView {
        EffectView {
            container_id: self.container_id@,
            is_running: self.is_running,
            has_error: self.has_error,
            message: self.message@,
            follow: self.follow,
        }
    }
}

/// What happened.
#[derive(Clone, Copy, PartialEq, Eq, Structural)]
pub enum Action {
    Start,
    Restart,
    Die,
    Kill,
}

/// The action of that name; other actions are of no interest.
pub open spec fn action_named(s: Seq<char>) -> Option<Action> {
    if s == "start"@ {
        Some(Action::Start)
    } else if s == "restart"@ {
        Some(Action::Restart)
    } else if s == "die"@ {
        Some(Action::Die)
    } else if s == "kill"@ {
        Some(Action::Kill)
    } else {
        None
    }
}

/// What is read of an event.
pub struct Event {
    pub action: Action,
    pub id: Seq<char>,
    pub name: Seq<char>,
    pub exit_code: Seq<char>,
    pub signal: Seq<char>,
    pub time: Option<int>,
    pub nanos: Option<int>,
}

pub open spec fn event_in(v: JsonView) -> Option<Event> {
    match action_named(http::or_else(v.text(seq![Step::Key("Action"@)]), ""@)) {
        None => None,
        Some(action) => Some(
            Event {
                action,
                id: http::or_else(v.text(seq![Step::Key("Actor"@), Step::Key("ID"@)]), ""@),
                name: http::or_else(
                    v.text(seq![Step::Key("Actor"@), Step::Key("Attributes"@), Step::Key("name"@)]),
                    "unknown"@,
                ),
                exit_code: http::or_else(
                    v.text(seq![Step::Key("Actor"@), Step::Key("Attributes"@), Step::Key("exitCode"@)]),
                    "unknown"@,
                ),
                signal: http::or_else(
                    v.text(seq![Step::Key("Actor"@), Step::Key("Attributes"@), Step::Key("signal"@)]),
                    ""@,
                ),
                time: v.number(seq![Step::Key("time"@)]),
                nanos: v.number(seq![Step::Key("timeNano"@)]),
            },
        ),
    }
}

impl Event {
    pub open spec fn is_running(self) -> bool {
        self.action is Start || self.action is Restart
    }

    /// Whether the seconds can be turned into nanoseconds.
    pub open spec fn in_range(self) -> bool {
        self.time matches Some(t) ==> i64::MIN <= t * 1_000_000_000 <= i64::MAX
    }

    pub open spec fn date(self) -> Option<Seq<char>> {
        match self.time {
            None => None,
            Some(t) => Some(
                clock::Moment::of(
                    match self.nanos {
                        Some(n) => n,
                        None => t * 1_000_000_000,
                    },
                ).text(),
            ),
        }
    }

    /// The words for the event. A start of a container that has run before is a restart.
    pub open spec fn words(self, known: Seq<Seq<char>>) -> Seq<char> {
        let head = "["@ + self.name;
        match self.action {
            Action::Die => head + " - DIE - exit code: "@ + self.exit_code + "]"@,
            Action::Restart => head + " - RESTART]"@,
            Action::Start => if known.contains(self.id) {
                head + " - RESTART]"@
            } else {
                head + " - START]"@
            },
            Action::Kill => if self.signal.len() == 0 {
                head + " - KILL]"@
            } else {
                head + " - KILL - signal: "@ + self.signal + "]"@
            },
        }
    }

    pub open spec fn effect(self, known: Seq<Seq<char>>) -> EffectView {
        EffectView {
            container_id: self.id,
            is_running: self.is_running(),
            has_error: !self.is_running(),
            message: MsgView {
                container_id: self.id,
                service_name: self.name,
                timestamp: self.date(),
                message: self.words(known),
                stream_type: StreamType::System,
                is_system_event: true,
            },
            follow: self.is_running(),
        }
    }

    /// The containers known to have run, once the event is known.
    pub open spec fn known_after(self, known: Seq<Seq<char>>) -> Seq<Seq<char>> {
        if self.action is Start && !known.contains(self.id) {
            known.push(self.id)
        } else {
            known
        }
    }
}

/// What each text of a list holds.
pub open spec fn names_view(v: Seq<String>) -> Seq<Seq<char>> {
    v.map_values(|s: String| s@)
}

fn has_name(v: &Vec<String>, s: &str) -> (r: bool)
    ensures
        r == names_view(v@).contains(s@),
{
    let mut i: usize = 0;
    while i < v.len()
        invariant
            i <= v@.len(),
            forall|j: int| 0 <= j < i ==> #[trigger] names_view(v@)[j] != s@,
        decreases v@.len() - i,
    {
        assert(names_view(v@)[i as int] == v@[i as int]@);
        if same_str(v[i].as_str(), s) {
            return true;
        }
        i += 1;
    }
    false
}

fn read_action(s: &str) -> (r: Option<Action>)
    ensures
        r == action_named(s@),
{
    if same_str(s, "start") {
        Some(Action::Start)
    } else if same_str(s, "restart") {
        Some(Action::Restart)
    } else if same_str(s, "die") {
        Some(Action::Die)
    } else if same_str(s, "kill") {
        Some(Action::Kill)
    } else {
        None
    }
}

/// Four texts, one after the other.
fn joined4(a: &str, b: &str, c: &str, d: &str) -> (r: String)
    ensures
        r@ == a@ + b@ + c@ + d@,
{
    let mut v = chars_of(a);
    let mut x = chars_of(b);
    let mut y = chars_of(c);
    let mut z = chars_of(d);
    v.append(&mut x);
    v.append(&mut y);
    v.append(&mut z);
    string_of(v.as_slice())
}

fn joined_words(a: &str, b: &str, c: &str) -> (r: String)
    ensures
        r@ == a@ + b@ + c@,
{
    let mut v = chars_of(a);
    let mut x = chars_of(b);
    let mut y = chars_of(c);
    v.append(&mut x);
    v.append(&mut y);
    string_of(v.as_slice())
}

/// The seconds of the event, if it is of interest and has them.
fn event_time(v: &serde_json::Value) -> (r: Option<i64>)
    ensures
        event_in(json::json_view(*v)) matches Some(e) ==> json::opt_int(r) == e.time,
{
    int_at(v, "time")
}

/// Whether the seconds of the event can be turned into nanoseconds.
pub fn event_in_range(v: &serde_json::Value) -> (r: bool)
    ensures
        r == (event_in(json::json_view(*v)) matches Some(e) ==> e.in_range()),
{
    let action = text_or(text_at(v, "Action"), "");
    if read_action(action.as_str()).is_none() {
        return true;
    }
    match event_time(v) {
        Some(t) => {
            let n: i128 = t as i128 * 1_000_000_000;
            i64::MIN as i128 <= n && n <= i64::MAX as i128
        },
        None => true,
    }
}

/// What follows from an event, given the containers known to have run.
pub fn on_event(v: &serde_json::Value, known: &mut Vec<String>) -> (r: Option<Effect>)
    requires
        event_in(json::json_view(*v)) matches Some(e) ==> e.in_range(),
    ensures
        match (r, event_in(json::json_view(*v))) {
            (Some(x), Some(e)) => x@ == e.effect(names_view(old(known)@)) && names_view(final(known)@)
                == e.known_after(names_view(old(known)@)),
            (None, None) => final(known)@ == old(known)@,
            _ => false,
        },
{
    let ghost event = event_in(json::json_view(*v));
    let ghost before = names_view(known@);
    let action = match read_action(text_or(text_at(v, "Action"), "").as_str()) {
        Some(a) => a,
        None => return None,
    };
    let ghost e = event->0;
    let id = text_or(text_at2(v, "Actor", "ID"), "");
    let name = text_or(text_at3(v, "Actor", "Attributes", "name"), "unknown");
    let is_running: bool = action == Action::Start || action == Action::Restart;
    let timestamp: Option<String> = match event_time(v) {
        None => None,
        Some(t) => {
            let nanos: i64 = match int_at(v, "timeNano") {
                Some(n) => n,
                None => t * 1_000_000_000,
            };
            Some(unix_nanos_to_normalized_rfc3339(nanos))
        },
    };
    assert(logitem::opt_view(timestamp) == e.date());
    let seen: bool = has_name(known, id.as_str());
    let words = match action {
        Action::Die => {
            let code = text_or(text_at3(v, "Actor", "Attributes", "exitCode"), "unknown");
            let mut w = joined4("[", name.as_str(), " - DIE - exit code: ", code.as_str());
            w.append("]");
            w
        },
        Action::Restart => joined_words("[", name.as_str(), " - RESTART]"),
        Action::Start => {
            if seen {
                joined_words("[", name.as_str(), " - RESTART]")
            } else {
                joined_words("[", name.as_str(), " - START]")
            }
        },
        Action::Kill => {
            let signal = text_or(text_at3(v, "Actor", "Attributes", "signal"), "");
            if signal.as_str().unicode_len() == 0 {
                joined_words("[", name.as_str(), " - KILL]")
            } else {
                let mut w = joined4("[", name.as_str(), " - KILL - signal: ", signal.as_str());
                w.append("]");
                w
            }
        },
    };
    assert(words@ == e.words(before));
    if action == Action::Start && !seen {
        let copy = id.clone();
        known.push(copy);
        assert(names_view(known@) =~= before.push(id@));
    }
    let container_id = id.clone();
    Some(
        Effect {
            container_id,
            is_running,
            has_error: !is_running,
            message: DockerLogMsg {
                container_id: id,
                service_name: name,
                timestamp,
                message: words,
                stream_type: StreamType::System,
                is_system_event: true,
            },
            follow: is_running,
        },
    )
}

/// How a line of the event stream is answered.
pub enum Reply {
    /// It is no event of interest.
    Ignored,
    /// Its time is beyond the numbers of the machine.
    OutOfRange,
    /// It has an effect.
    Effect(Effect),
}

/// What follows from a line of the event stream.
pub fn on_event_line(line: &str, known: &mut Vec<String>) -> (r: Reply)
    ensures
        ({
            let doc = json::json_value(text::trimmed(line@));
            let event = match doc {
                Some(d) => event_in(d),
                None => None,
            };
            match event {
                None => r is Ignored && final(known)@ == old(known)@,
                Some(e) => if e.in_range() {
                    &&& r matches Reply::Effect(x)
                    &&& x@ == e.effect(names_view(old(known)@))
                    &&& names_view(final(known)@) == e.known_after(names_view(old(known)@))
                } else {
                    r is OutOfRange && final(known)@ == old(known)@
                },
            }
        }),
{
    let v = chars_of(line);
    let trimmed = string_of(strip(v.as_slice(), Class::Space));
    match read_value(trimmed.as_str()) {
        None => Reply::Ignored,
        Some(doc) => {
            if !event_in_range(&doc) {
                return Reply::OutOfRange;
            }
            match on_event(&doc, known) {
                Some(x) => Reply::Effect(x),
                None => Reply::Ignored,
            }
        },
    }
}

/// A container that has been seen to start is told of as restarting from then on.
pub proof fn law_second_start_is_restart(first: Event, second: Event, known: Seq<Seq<char>>)
    requires
        first.action is Start,
        second.action is Start,
        second.id == first.id,
    ensures
        second.words(first.known_after(known)) == "["@ + second.name + " - RESTART]"@,
{
    if !known.contains(first.id) {
        let after = known.push(first.id);
        assert(after[known.len() as int] == first.id);
    }
}

} // verus!
