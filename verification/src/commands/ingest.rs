//! Messages of the engine on their way into the log.

use super::level::{self, infer_log_level};
use crate::ansi::{self, ansi_readable};
use crate::docker::http::{ContainerInfo, ContainerView};
use crate::docker::wire::{self, DockerLogMsg, MsgView};
use crate::logitem::{self, LogItem, LogView};
use crate::service::{ContainerFilterOption, ServiceView};
use crate::state::view::StateView;
use crate::state::AppState;
use crate::text::{self, chars_of, not_after, same_str, string_of};
use std::collections::VecDeque;
use vstd::prelude::*;

verus! {

/// The line that a message makes.
pub open spec fn item_view(m: MsgView) -> LogView {
    LogView::made(
        m.service_name,
        m.message,
        level::level_of(m.message, m.is_system_event),
        m.timestamp,
        m.is_system_event,
    )
}

/// Makes a line of a message.
pub fn item_of(msg: DockerLogMsg) -> (r: LogItem)
    requires
        ansi::commands_ascii(msg@.message, 0),
    ensures
        r@ == item_view(msg@),
{
    let lvl = infer_log_level(msg.message.as_str(), msg.is_system_event);
    LogItem::new(msg.service_name, msg.message, lvl, msg.timestamp, msg.is_system_event)
}

/// Makes a line of a message, where its escape sequences can be read.
pub fn try_item_of(msg: DockerLogMsg) -> (r: Option<LogItem>)
    ensures
        r is Some == ansi::commands_ascii(msg@.message, 0),
        r matches Some(l) ==> l@ == item_view(msg@),
{
    if ansi_readable(msg.message.as_str()) {
        Some(item_of(msg))
    } else {
        None
    }
}

/// The words for an error of the engine.
pub fn daemon_error_text(error: &str) -> (r: String)
    ensures
        r@ == "Docker daemon error: "@ + error@ + ". Check socket permissions."@,
{
    let mut v = chars_of("Docker daemon error: ");
    let mut e = chars_of(error);
    let mut end = chars_of(". Check socket permissions.");
    v.append(&mut e);
    v.append(&mut end);
    string_of(v.as_slice())
}

/// The words for an engine that is not there.
pub fn no_socket_text() -> (r: String)
    ensures
        r@ == "Docker socket /var/run/docker.sock not found."@,
{
    "Docker socket /var/run/docker.sock not found.".to_owned()
}

/// A line of the viewer's own, where its escape sequences can be read.
pub fn system_item(message: String, level: &str) -> (r: Option<LogItem>)
    ensures
        r is Some == ansi::commands_ascii(message@, 0),
        r matches Some(l) ==> l@ == LogView::made("system"@, message@, Some(level@), None, true),
{
    if ansi_readable(message.as_str()) {
        Some(LogItem::new("system".to_owned(), message, Some(level.to_owned()), None, true))
    } else {
        None
    }
}

/// How many lines are asked for of a container at first.
pub fn initial_tail(is_running: bool, has_error: bool) -> (r: usize)
    ensures
        r == (if is_running || has_error {
            1000usize
        } else {
            100usize
        }),
{
    if is_running || has_error {
        1000
    } else {
        100
    }
}

/// The option that a container makes.
pub open spec fn option_view(c: ContainerView) -> ServiceView {
    ServiceView { id: c.id, name: c.name, enabled: true, is_running: c.is_running, has_error: c.has_error }
}

pub fn option_of(c: &ContainerInfo) -> (r: ContainerFilterOption)
    ensures
        r@ == option_view(c@),
{
    ContainerFilterOption {
        id: c.id.clone(),
        name: c.name.clone(),
        enabled: true,
        is_running: c.is_running,
        has_error: c.has_error,
    }
}

/// The first option from `i` on with this id.
pub open spec fn option_with_id(opts: Seq<ServiceView>, id: Seq<char>, i: int) -> Option<int>
    decreases opts.len() - i,
{
    if !(0 <= i < opts.len()) {
        None
    } else if opts[i].id == id {
        Some(i)
    } else {
        option_with_id(opts, id, i + 1)
    }
}

impl StateView {
    /// The state with the standing of a container noted.
    pub open spec fn status_noted(self, id: Seq<char>, is_running: bool, has_error: bool) -> StateView {
        match option_with_id(self.service_options, id, 0) {
            Some(k) => StateView {
                service_options: self.service_options.update(
                    k,
                    ServiceView { is_running, has_error, ..self.service_options[k] },
                ),
                ..self
            },
            None => self,
        }
    }

    /// The state with the containers as options.
    pub open spec fn containers_added(self, c: Seq<ContainerView>) -> StateView {
        StateView {
            service_options: self.service_options + c.map_values(|x: ContainerView| option_view(x)),
            ..self
        }
    }
}

impl AppState {
    /// Notes how a container stands.
    pub fn note_status(&mut self, id: &str, is_running: bool, has_error: bool)
        ensures
            final(self)@ == old(self)@.status_noted(id@, is_running, has_error),
    {
        let ghost start = self@;
        let mut i: usize = 0;
        while i < self.service_options.len()
            invariant
                i <= self.service_options@.len(),
                self@ == start,
                start == old(self)@,
                option_with_id(start.service_options, id@, 0) == option_with_id(
                    start.service_options,
                    id@,
                    i as int,
                ),
            decreases self.service_options@.len() - i,
        {
            assert(self@.service_options[i as int] == self.service_options@[i as int]@);
            if same_str(self.service_options[i].id.as_str(), id) {
                self.service_options[i].is_running = is_running;
                self.service_options[i].has_error = has_error;
                assert(self@.service_options =~= start.service_options.update(
                    i as int,
                    ServiceView { is_running, has_error, ..start.service_options[i as int] },
                ));
                assert(self@ =~= start.status_noted(id@, is_running, has_error));
                return;
            }
            i += 1;
        }
    }

    /// Adds the containers as options.
    pub fn add_containers(&mut self, containers: &Vec<ContainerInfo>)
        ensures
            final(self)@ == old(self)@.containers_added(crate::docker::http::containers_view(containers@)),
    {
        let ghost start = self@;
        let ghost views = crate::docker::http::containers_view(containers@);
        let ghost opts = views.map_values(|x: ContainerView| option_view(x));
        let mut i: usize = 0;
        assert(self@ =~= (StateView { service_options: start.service_options + opts.take(0), ..start }));
        while i < containers.len()
            invariant
                i <= containers@.len(),
                views == crate::docker::http::containers_view(containers@),
                opts == views.map_values(|x: ContainerView| option_view(x)),
                self@ == (StateView { service_options: start.service_options + opts.take(i as int), ..start }),
            decreases containers@.len() - i,
        {
            let ghost before = self@;
            let o = option_of(&containers[i]);
            assert(views[i as int] == containers@[i as int]@);
            let ghost view = o@;
            self.service_options.push(o);
            assert(self@.service_options =~= before.service_options.push(view));
            i += 1;
            assert(self@ =~= (StateView { service_options: start.service_options + opts.take(i as int), ..start }));
        }
        assert(opts.take(i as int) =~= opts);
    }
}

// ---------------------------------------------------------------------------
// Messages in the order of their dates
// ---------------------------------------------------------------------------

/// The order of dates: no date comes first.
pub open spec fn date_le(a: Option<Seq<char>>, b: Option<Seq<char>>) -> bool {
    match (a, b) {
        (None, _) => true,
        (Some(_), None) => false,
        (Some(x), Some(y)) => text::lex_le(x, y),
    }
}

/// Whether the messages stand in the order of their dates.
pub open spec fn by_date(s: Seq<MsgView>) -> bool {
    forall|i: int, j: int|
        0 <= i < j < s.len() ==> date_le((#[trigger] s[i]).timestamp, (#[trigger] s[j]).timestamp)
}

/// The messages with this date, in order.
pub open spec fn of_date(s: Seq<MsgView>, t: Option<Seq<char>>) -> Seq<MsgView> {
    s.filter(|m: MsgView| m.timestamp == t)
}

/// Whether two lists hold the same messages, those of one date in the same order.
pub open spec fn same_by_date(a: Seq<MsgView>, b: Seq<MsgView>) -> bool {
    forall|t: Option<Seq<char>>| #[trigger] of_date(a, t) == of_date(b, t)
}

/// Two lists merged: the earlier message first, on equal dates the first list's.
pub open spec fn merged(a: Seq<MsgView>, b: Seq<MsgView>) -> Seq<MsgView>
    decreases a.len() + b.len(),
{
    if a.len() == 0 {
        b
    } else if b.len() == 0 {
        a
    } else if date_le(a[0].timestamp, b[0].timestamp) {
        seq![a[0]] + merged(a.skip(1), b)
    } else {
        seq![b[0]] + merged(a, b.skip(1))
    }
}

proof fn lemma_date_order(a: Option<Seq<char>>, b: Option<Seq<char>>, c: Option<Seq<char>>)
    ensures
        date_le(a, b) || date_le(b, a),
        date_le(a, b) && date_le(b, c) ==> date_le(a, c),
{
    if a is Some && b is Some {
        crate::state::laws::law_text_order_total(a->0, b->0);
        if c is Some && date_le(a, b) && date_le(b, c) {
            crate::state::laws::law_text_order_transitive(a->0, b->0, c->0);
        }
    }
}

proof fn lemma_filter_front(m: MsgView, rest: Seq<MsgView>, t: Option<Seq<char>>)
    ensures
        of_date(seq![m] + rest, t) == (if m.timestamp == t {
            seq![m] + of_date(rest, t)
        } else {
            of_date(rest, t)
        }),
    decreases rest.len(),
{
    reveal(Seq::filter);
    let all = seq![m] + rest;
    if rest.len() == 0 {
        lemma_no_such_date(rest, t);
        assert(all.drop_last() =~= rest);
        assert(of_date(all, t) =~= (if m.timestamp == t {
            seq![m] + of_date(rest, t)
        } else {
            of_date(rest, t)
        }));
    } else {
        lemma_filter_front(m, rest.drop_last(), t);
        assert(all.drop_last() =~= seq![m] + rest.drop_last());
        assert(of_date(all, t) =~= (if m.timestamp == t {
            seq![m] + of_date(rest, t)
        } else {
            of_date(rest, t)
        }));
    }
}

proof fn lemma_filter_joined(a: Seq<MsgView>, b: Seq<MsgView>, t: Option<Seq<char>>)
    ensures
        of_date(a + b, t) == of_date(a, t) + of_date(b, t),
    decreases b.len(),
{
    reveal(Seq::filter);
    if b.len() == 0 {
        assert(a + b =~= a);
        assert(of_date(a, t) + of_date(b, t) =~= of_date(a, t));
    } else {
        lemma_filter_joined(a, b.drop_last(), t);
        assert((a + b).drop_last() =~= a + b.drop_last());
        assert(of_date(a + b, t) =~= of_date(a, t) + of_date(b, t));
    }
}

proof fn lemma_no_such_date(a: Seq<MsgView>, t: Option<Seq<char>>)
    requires
        forall|i: int| 0 <= i < a.len() ==> (#[trigger] a[i]).timestamp != t,
    ensures
        of_date(a, t) == Seq::<MsgView>::empty(),
    decreases a.len(),
{
    reveal(Seq::filter);
    if a.len() > 0 {
        lemma_no_such_date(a.drop_last(), t);
    }
}

proof fn lemma_merged(a: Seq<MsgView>, b: Seq<MsgView>)
    requires
        by_date(a),
        by_date(b),
    ensures
        by_date(merged(a, b)),
        forall|t: Option<Seq<char>>| #[trigger] of_date(merged(a, b), t) == of_date(a, t) + of_date(b, t),
        forall|i: int|
            0 <= i < merged(a, b).len() ==> a.contains(#[trigger] merged(a, b)[i]) || b.contains(merged(a, b)[i]),
    decreases a.len() + b.len(),
{
    let all = merged(a, b);
    if a.len() == 0 {
        assert forall|t: Option<Seq<char>>| #[trigger] of_date(all, t) == of_date(a, t) + of_date(b, t) by {
            lemma_no_such_date(a, t);
            assert(Seq::<MsgView>::empty() + of_date(b, t) =~= of_date(b, t));
        }
    } else if b.len() == 0 {
        assert forall|t: Option<Seq<char>>| #[trigger] of_date(all, t) == of_date(a, t) + of_date(b, t) by {
            lemma_no_such_date(b, t);
            assert(of_date(a, t) + Seq::<MsgView>::empty() =~= of_date(a, t));
        }
    } else {
        let first = date_le(a[0].timestamp, b[0].timestamp);
        let head = if first {
            a[0]
        } else {
            b[0]
        };
        let a2 = if first {
            a.skip(1)
        } else {
            a
        };
        let b2 = if first {
            b
        } else {
            b.skip(1)
        };
        let rest = merged(a2, b2);
        assert(by_date(a2)) by {
            assert forall|i: int, j: int| 0 <= i < j < a2.len() implies date_le(
                (#[trigger] a2[i]).timestamp,
                (#[trigger] a2[j]).timestamp,
            ) by {
                if first {
                    assert(a2[i] == a[i + 1] && a2[j] == a[j + 1]);
                }
            }
        }
        assert(by_date(b2)) by {
            assert forall|i: int, j: int| 0 <= i < j < b2.len() implies date_le(
                (#[trigger] b2[i]).timestamp,
                (#[trigger] b2[j]).timestamp,
            ) by {
                if !first {
                    assert(b2[i] == b[i + 1] && b2[j] == b[j + 1]);
                }
            }
        }
        lemma_merged(a2, b2);
        lemma_date_order(a[0].timestamp, b[0].timestamp, None);
        assert forall|m: MsgView| a2.contains(m) || b2.contains(m) implies #[trigger] date_le(
            head.timestamp,
            m.timestamp,
        ) && (a.contains(m) || b.contains(m)) by {
            if a2.contains(m) {
                let k = choose|k: int| 0 <= k < a2.len() && a2[k] == m;
                let k1 = if first {
                    k + 1
                } else {
                    k
                };
                assert(a[k1] == m);
                if k1 > 0 {
                    assert(date_le(a[0].timestamp, a[k1].timestamp));
                }
                lemma_date_order(a[0].timestamp, a[0].timestamp, None);
                lemma_date_order(head.timestamp, a[0].timestamp, m.timestamp);
            } else {
                let k = choose|k: int| 0 <= k < b2.len() && b2[k] == m;
                let k1 = if first {
                    k
                } else {
                    k + 1
                };
                assert(b[k1] == m);
                if k1 > 0 {
                    assert(date_le(b[0].timestamp, b[k1].timestamp));
                }
                lemma_date_order(b[0].timestamp, b[0].timestamp, None);
                lemma_date_order(head.timestamp, b[0].timestamp, m.timestamp);
            }
        }
        assert(all == seq![head] + rest);
        assert forall|i: int, j: int| 0 <= i < j < all.len() implies date_le(
            (#[trigger] all[i]).timestamp,
            (#[trigger] all[j]).timestamp,
        ) by {
            assert(all[j] == rest[j - 1]);
            if i > 0 {
                assert(all[i] == rest[i - 1]);
            } else {
                assert(a2.contains(rest[j - 1]) || b2.contains(rest[j - 1]));
            }
        }
        assert forall|i: int| 0 <= i < all.len() implies a.contains(#[trigger] all[i]) || b.contains(all[i]) by {
            if i == 0 {
                assert(a.contains(a[0]) && b.contains(b[0]));
            } else {
                assert(all[i] == rest[i - 1]);
                assert(a2.contains(rest[i - 1]) || b2.contains(rest[i - 1]));
                assert(date_le(head.timestamp, rest[i - 1].timestamp));
            }
        }
        assert forall|t: Option<Seq<char>>| #[trigger] of_date(all, t) == of_date(a, t) + of_date(b, t) by {
            lemma_filter_front(head, rest, t);
            assert(of_date(rest, t) == of_date(a2, t) + of_date(b2, t));
            if first {
                assert(a =~= seq![a[0]] + a2);
                lemma_filter_front(a[0], a2, t);
                assert(of_date(all, t) =~= of_date(a, t) + of_date(b, t));
            } else {
                assert(b =~= seq![b[0]] + b2);
                lemma_filter_front(b[0], b2, t);
                if head.timestamp == t {
                    assert forall|i: int| 0 <= i < a.len() implies (#[trigger] a[i]).timestamp != t by {
                        if i > 0 {
                            assert(date_le(a[0].timestamp, a[i].timestamp));
                        }
                        lemma_date_order(a[0].timestamp, a[0].timestamp, None);
                    }
                    lemma_no_such_date(a, t);
                }
                assert(of_date(all, t) =~= of_date(a, t) + of_date(b, t));
            }
        }
    }
}

fn date_not_after(a: &Option<String>, b: &Option<String>) -> (r: bool)
    ensures
        r == date_le(logitem::opt_view(*a), logitem::opt_view(*b)),
{
    match (a, b) {
        (None, _) => true,
        (Some(_), None) => false,
        (Some(x), Some(y)) => not_after(x.as_str(), y.as_str()),
    }
}

fn merge(a: VecDeque<DockerLogMsg>, b: VecDeque<DockerLogMsg>) -> (r: VecDeque<DockerLogMsg>)
    ensures
        wire::msgs_view(r@) == merged(wire::msgs_view(a@), wire::msgs_view(b@)),
{
    let ghost whole = merged(wire::msgs_view(a@), wire::msgs_view(b@));
    let mut a = a;
    let mut b = b;
    let mut out: VecDeque<DockerLogMsg> = VecDeque::new();
    assert(wire::msgs_view(out@) + whole =~= whole);
    while a.len() > 0 && b.len() > 0
        invariant
            wire::msgs_view(out@) + merged(wire::msgs_view(a@), wire::msgs_view(b@)) == whole,
        decreases a@.len() + b@.len(),
    {
        let ghost (av, bv, before) = (wire::msgs_view(a@), wire::msgs_view(b@), wire::msgs_view(out@));
        assert(av[0] == a@[0]@ && bv[0] == b@[0]@);
        let first: bool = date_not_after(&a[0].timestamp, &b[0].timestamp);
        let taken = if first {
            a.pop_front()
        } else {
            b.pop_front()
        };
        if let Some(m) = taken {
            let ghost view = m@;
            out.push_back(m);
            assert(wire::msgs_view(out@) =~= before.push(view));
            if first {
                assert(wire::msgs_view(a@) =~= av.skip(1));
            } else {
                assert(wire::msgs_view(b@) =~= bv.skip(1));
            }
            assert(wire::msgs_view(out@) + merged(wire::msgs_view(a@), wire::msgs_view(b@)) =~= before + merged(
                av,
                bv,
            ));
        }
    }
    let ghost (av, bv, before) = (wire::msgs_view(a@), wire::msgs_view(b@), wire::msgs_view(out@));
    assert(merged(av, bv) =~= av + bv);
    out.append(&mut a);
    out.append(&mut b);
    assert(wire::msgs_view(out@) =~= before + (av + bv));
    out
}

/// Puts messages in the order of their dates; messages of one date stay in their order.
pub fn sort_messages(v: VecDeque<DockerLogMsg>) -> (r: VecDeque<DockerLogMsg>)
    ensures
        by_date(wire::msgs_view(r@)),
        same_by_date(wire::msgs_view(r@), wire::msgs_view(v@)),
    decreases v@.len(),
{
    let n: usize = v.len();
    if n < 2 {
        return v;
    }
    let ghost all = wire::msgs_view(v@);
    let mut left = v;
    let right = left.split_off(n / 2);
    let ghost lv = wire::msgs_view(left@);
    let ghost rv = wire::msgs_view(right@);
    assert(all =~= lv + rv);
    let a = sort_messages(left);
    let b = sort_messages(right);
    let ghost av = wire::msgs_view(a@);
    let ghost bv = wire::msgs_view(b@);
    let out = merge(a, b);
    proof {
        lemma_merged(av, bv);
        assert forall|t: Option<Seq<char>>| #[trigger] of_date(merged(av, bv), t) == of_date(all, t) by {
            lemma_filter_joined(lv, rv, t);
            assert(of_date(av, t) == of_date(lv, t));
            assert(of_date(bv, t) == of_date(rv, t));
        }
    }
    out
}

} // verus!
