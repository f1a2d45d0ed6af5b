//! The message console: time-stamped rows in a log that keeps the newest
//! messages only.
use vstd::prelude::*;
use crate::text;
use crate::types::EMessageType;

verus! {

/// Two ASCII digits at `k` and `k + 1`, read as a number.
pub open spec fn two_digits(s: Seq<char>, k: int) -> int {
    text::digit_value(s[k]) * 10 + text::digit_value(s[k + 1])
}

/// A time of day as `%H:%M:%S` writes it: hours 00 to 23, minutes 00 to
/// 59 and seconds 00 to 60, each two digits, separated by colons.
pub open spec fn is_time_of_day_text(s: Seq<char>) -> bool {
    &&& s.len() == 8
    &&& s[2] == ':'
    &&& s[5] == ':'
    &&& text::is_digit(s[0]) && text::is_digit(s[1])
    &&& text::is_digit(s[3]) && text::is_digit(s[4])
    &&& text::is_digit(s[6]) && text::is_digit(s[7])
    &&& two_digits(s, 0) <= 23
    &&& two_digits(s, 3) <= 59
    &&& two_digits(s, 6) <= 60
}

/// `chrono::Local::now`, formatted by `DateTime::format` with the pattern
/// `%H:%M:%S` and written out by `to_string`: the current local time of
/// day. Which time it is depends on the clock and the time zone, so the
/// contract claims only the form: chrono documents `%H` as the hour 00 to
/// 23, `%M` as the minute 00 to 59 and `%S` as the second 00 to 60, each
/// zero-padded to two digits.
#[verifier::external_body]
fn local_time_of_day() -> (s: String)
    ensures
        is_time_of_day_text(s@),
{
    chrono::Local::now().format("%H:%M:%S").to_string()
}

/// The colour a console row is drawn in.
#[derive(Debug, Clone, Copy, PartialEq, Eq, Structural)]
pub enum ConsoleColor {
    LightGray,
    Yellow,
    Red,
    Green,
}

/// The colour of each message type.
pub open spec fn color_of(t: EMessageType) -> ConsoleColor {
    match t {
        EMessageType::Log => ConsoleColor::LightGray,
        EMessageType::Warning => ConsoleColor::Yellow,
        EMessageType::Error => ConsoleColor::Red,
        EMessageType::Success => ConsoleColor::Green,
    }
}

/// One message of the console, with the time it was made.
pub struct ConsoleRow {
    message: String,
    message_type: EMessageType,
    message_time: String,
}

impl ConsoleRow {
    /// The text of the message.
    pub closed spec fn spec_message(&self) -> Seq<char> {
        self.message@
    }

    /// The type of the message.
    pub closed spec fn spec_type(&self) -> EMessageType {
        self.message_type
    }

    /// The time of day the message was made at.
    pub closed spec fn spec_time(&self) -> Seq<char> {
        self.message_time@
    }

    /// The colour that the row is drawn in.
    pub fn get_color(&self) -> (c: ConsoleColor)
        ensures
            c == color_of(self.spec_type()),
    {
        match self.message_type {
            EMessageType::Log => ConsoleColor::LightGray,
            EMessageType::Warning => ConsoleColor::Yellow,
            EMessageType::Error => ConsoleColor::Red,
            EMessageType::Success => ConsoleColor::Green,
        }
    }

    /// A message stamped with the current local time of day.
    pub fn new(message: String, message_type: EMessageType) -> (r: Self)
        ensures
            r.spec_message() == message@,
            r.spec_type() == message_type,
            is_time_of_day_text(r.spec_time()),
    {
        let message_time = local_time_of_day();
        ConsoleRow { message, message_type, message_time }
    }

    /// The row as the console shows it: `[time]: message`.
    pub fn get_message(&self) -> (s: String)
        ensures
            s@ == seq!['['] + self.spec_time() + "]: "@ + self.spec_message(),
    {
        let mut s = String::new();
        text::string_push(&mut s, '[');
        text::push_str(&mut s, self.message_time.as_str());
        text::push_str(&mut s, "]: ");
        text::push_str(&mut s, self.message.as_str());
        assert(seq!['['] == Seq::<char>::empty().push('['));
        s
    }
}

/// The console keeps fewer messages than this; the oldest go first.
pub const MESSAGE_COUNT_LIMIT: usize = 2048;

/// The log after `m` is added: `m` goes last, and where the log then
/// reaches the limit, its oldest message is dropped.
pub open spec fn log_after_add(log: Seq<ConsoleRow>, m: ConsoleRow) -> Seq<ConsoleRow> {
    if log.len() + 1 >= MESSAGE_COUNT_LIMIT {
        log.push(m).drop_first()
    } else {
        log.push(m)
    }
}

/// The bounded log: a log with fewer messages than the limit stays so
/// when a message is added, the message added is the newest one, and the
/// messages before it are the newest of those the log held, in order.
pub proof fn lemma_log_stays_bounded(log: Seq<ConsoleRow>, m: ConsoleRow)
    requires
        log.len() < MESSAGE_COUNT_LIMIT,
    ensures
        log_after_add(log, m).len() < MESSAGE_COUNT_LIMIT,
        log_after_add(log, m).len() > 0,
        log_after_add(log, m).last() == m,
        log_after_add(log, m).drop_last() == log.skip(log.len() - (log_after_add(log, m).len()
            - 1)),
{
    let r = log_after_add(log, m);
    if log.len() + 1 >= MESSAGE_COUNT_LIMIT {
        assert(r.drop_last() == log.skip(1));
    } else {
        assert(r.drop_last() == log);
        assert(log.skip(0) == log);
    }
}

/// The message console of the application.
pub struct Console {
    is_active: bool,
    list: Vec<ConsoleRow>,
    pub auto_stick_to_bottom: bool,
    pub jump_to_bottom_once: bool,
}

impl Console {
    /// Whether the view follows the newest message.
    pub closed spec fn spec_pinned(&self) -> bool {
        self.auto_stick_to_bottom
    }

    /// Whether one jump to the newest message is pending.
    pub closed spec fn spec_jump_requested(&self) -> bool {
        self.jump_to_bottom_once
    }

    /// The messages the console holds, oldest first.
    pub closed spec fn messages(&self) -> Seq<ConsoleRow> {
        self.list@
    }

    /// Whether the console panel is expanded.
    pub closed spec fn spec_is_active(&self) -> bool {
        self.is_active
    }

    /// Adds a message at the end, dropping the oldest one where the log
    /// would otherwise reach the limit.
    pub fn add_message(&mut self, msg: ConsoleRow)
        ensures
            called(*old(self), *final(self), ConsoleCall::AddMessage(msg)),
            final(self).messages() == log_after_add(old(self).messages(), msg),
            old(self).messages().len() < MESSAGE_COUNT_LIMIT ==> final(self).messages().len()
                < MESSAGE_COUNT_LIMIT,
            final(self).spec_is_active() == old(self).spec_is_active(),
            final(self).spec_pinned() == old(self).spec_pinned(),
            final(self).spec_jump_requested() == old(self).spec_jump_requested(),
    {
        let ghost m = msg;
        self.list.push(msg);
        if self.list.len() >= MESSAGE_COUNT_LIMIT {
            self.list.remove(0);
            assert(self.list@ == old(self).list@.push(m).drop_first());
        }
    }

    /// The messages, oldest first.
    pub fn get_messages(&self) -> (r: &Vec<ConsoleRow>)
        ensures
            r@ == self.messages(),
    {
        &self.list
    }

    /// Expands or collapses the console panel.
    pub fn set_active(&mut self, active: bool)
        ensures
            called(*old(self), *final(self), ConsoleCall::SetActive(active)),
            final(self).spec_is_active() == active,
            final(self).messages() == old(self).messages(),
            final(self).spec_pinned() == old(self).spec_pinned(),
            final(self).spec_jump_requested() == old(self).spec_jump_requested(),
    {
        self.is_active = active;
    }

    /// Whether the console panel is expanded.
    pub fn is_active(&self) -> (r: bool)
        ensures
            r == self.spec_is_active(),
    {
        self.is_active
    }

    /// Pins the view to the newest message, or unpins it.
    pub fn set_pinned_to_bottom(&mut self, pinned: bool)
        ensures
            called(*old(self), *final(self), ConsoleCall::SetPinnedToBottom(pinned)),
            final(self).spec_pinned() == pinned,
            final(self).spec_jump_requested() == old(self).spec_jump_requested(),
            final(self).spec_is_active() == old(self).spec_is_active(),
            final(self).messages() == old(self).messages(),
    {
        self.auto_stick_to_bottom = pinned;
    }

    /// Whether the view is pinned to the newest message.
    pub fn is_pinned_to_bottom(&self) -> (r: bool)
        ensures
            r == self.spec_pinned(),
    {
        self.auto_stick_to_bottom
    }

    /// Asks for one jump to the newest message, and pins the view there.
    pub fn jump_to_bottom(&mut self)
        ensures
            called(*old(self), *final(self), ConsoleCall::JumpToBottom),
            final(self).spec_jump_requested(),
            final(self).spec_pinned(),
            final(self).spec_is_active() == old(self).spec_is_active(),
            final(self).messages() == old(self).messages(),
    {
        self.jump_to_bottom_once = true;
        self.auto_stick_to_bottom = true;
    }

    /// Drops a pending jump request.
    pub fn clear_jump_request(&mut self)
        ensures
            called(*old(self), *final(self), ConsoleCall::ClearJumpRequest),
            !final(self).spec_jump_requested(),
            final(self).spec_pinned() == old(self).spec_pinned(),
            final(self).spec_is_active() == old(self).spec_is_active(),
            final(self).messages() == old(self).messages(),
    {
        self.jump_to_bottom_once = false;
    }

    /// Removes every message.
    pub fn clear(&mut self)
        ensures
            called(*old(self), *final(self), ConsoleCall::Clear),
            final(self).messages() == Seq::<ConsoleRow>::empty(),
            final(self).spec_is_active() == old(self).spec_is_active(),
            final(self).spec_pinned() == old(self).spec_pinned(),
            final(self).spec_jump_requested() == old(self).spec_jump_requested(),
    {
        self.list.clear();
    }
}

/// A call of a `Console` method that changes it.
pub enum ConsoleCall {
    AddMessage(ConsoleRow),
    SetActive(bool),
    SetPinnedToBottom(bool),
    JumpToBottom,
    ClearJumpRequest,
    Clear,
}

/// `after` is `before` after `call`: its messages and its three flags.
pub open spec fn called(before: Console, after: Console, call: ConsoleCall) -> bool {
    let messages = match call {
        ConsoleCall::AddMessage(m) => log_after_add(before.messages(), m),
        ConsoleCall::Clear => Seq::<ConsoleRow>::empty(),
        _ => before.messages(),
    };
    let active = match call {
        ConsoleCall::SetActive(a) => a,
        _ => before.spec_is_active(),
    };
    let pinned = match call {
        ConsoleCall::SetPinnedToBottom(p) => p,
        ConsoleCall::JumpToBottom => true,
        _ => before.spec_pinned(),
    };
    let jump = match call {
        ConsoleCall::JumpToBottom => true,
        ConsoleCall::ClearJumpRequest => false,
        _ => before.spec_jump_requested(),
    };
    &&& after.messages() == messages
    &&& after.spec_is_active() == active
    &&& after.spec_pinned() == pinned
    &&& after.spec_jump_requested() == jump
}

/// `states` is a run of `calls`: each state is the one before after the
/// call between them.
pub open spec fn is_run(states: Seq<Console>, calls: Seq<ConsoleCall>) -> bool {
    &&& states.len() == calls.len() + 1
    &&& forall|i: int| #![trigger calls[i]] 0 <= i < calls.len() ==> called(states[i], states[i + 1], calls[i])
}

/// Whether the panel is expanded after `calls`, from `active`: the value of
/// the last `set_active` among them, or `active` where there is none.
pub open spec fn active_after(active: bool, calls: Seq<ConsoleCall>) -> bool
    decreases calls.len(),
{
    if calls.len() == 0 {
        active
    } else {
        match calls.last() {
            ConsoleCall::SetActive(a) => a,
            _ => active_after(active, calls.drop_last()),
        }
    }
}

/// The newest messages of `ms` that the console keeps: the last
/// `min(n, MESSAGE_COUNT_LIMIT - 1)` of them, in order.
pub open spec fn newest_kept(ms: Seq<ConsoleRow>) -> Seq<ConsoleRow> {
    let keep = if ms.len() < MESSAGE_COUNT_LIMIT - 1 {
        ms.len() as int
    } else {
        MESSAGE_COUNT_LIMIT - 1
    };
    ms.skip(ms.len() - keep)
}

/// Only `set_active` expands or collapses the panel: after any run of
/// calls, the panel is as the last `set_active` left it, or as it was
/// where there was none.
pub proof fn lemma_active_follows_last_set_active(states: Seq<Console>, calls: Seq<ConsoleCall>)
    requires
        is_run(states, calls),
    ensures
        states.last().spec_is_active() == active_after(states[0].spec_is_active(), calls),
    decreases calls.len(),
{
    if calls.len() > 0 {
        let k = calls.len() - 1;
        assert(called(states[k], states[k + 1], calls[k]));
        assert(is_run(states.drop_last(), calls.drop_last())) by {
            assert forall|i: int| #![trigger calls.drop_last()[i]] 0 <= i < calls.drop_last().len() implies called(
                states.drop_last()[i],
                states.drop_last()[i + 1],
                calls.drop_last()[i],
            ) by {
                assert(called(states[i], states[i + 1], calls[i]));
            }
        }
        lemma_active_follows_last_set_active(states.drop_last(), calls.drop_last());
        assert(states.drop_last().last() == states[k]);
    }
}

/// The log over many adds: after `n` messages are added to an empty
/// console, it holds the newest `min(n, MESSAGE_COUNT_LIMIT - 1)` of them,
/// in the order they were added.
pub proof fn lemma_adds_keep_newest(states: Seq<Console>, ms: Seq<ConsoleRow>)
    requires
        states.len() == ms.len() + 1,
        states[0].messages() == Seq::<ConsoleRow>::empty(),
        forall|i: int| #![trigger ms[i]] 0 <= i < ms.len() ==> called(
            states[i],
            states[i + 1],
            ConsoleCall::AddMessage(ms[i]),
        ),
    ensures
        states.last().messages() == newest_kept(ms),
    decreases ms.len(),
{
    if ms.len() == 0 {
        assert(ms.skip(0) == ms);
    } else {
        let k = ms.len() - 1;
        assert(called(states[k], states[k + 1], ConsoleCall::AddMessage(ms[k])));
        assert forall|i: int| #![trigger ms.drop_last()[i]] 0 <= i < ms.drop_last().len() implies called(
            states.drop_last()[i],
            states.drop_last()[i + 1],
            ConsoleCall::AddMessage(ms.drop_last()[i]),
        ) by {
            assert(called(states[i], states[i + 1], ConsoleCall::AddMessage(ms[i])));
        }
        lemma_adds_keep_newest(states.drop_last(), ms.drop_last());
        let prev = newest_kept(ms.drop_last());
        assert(states.drop_last().last() == states[k]);
        assert(states[k].messages() == prev);
        if k >= MESSAGE_COUNT_LIMIT - 1 {
            assert(prev.push(ms[k]).drop_first() == ms.skip(ms.len() - (MESSAGE_COUNT_LIMIT - 1)));
        } else {
            assert(prev == ms.drop_last());
            assert(prev.push(ms[k]) == ms.skip(0));
        }
    }
}

impl Default for Console {
    fn default() -> (r: Self)
        ensures
            r.messages() == Seq::<ConsoleRow>::empty(),
            !r.spec_is_active(),
            r.spec_pinned(),
            r.spec_jump_requested(),
    {
        Console {
            is_active: false,
            list: Vec::new(),
            auto_stick_to_bottom: true,
            jump_to_bottom_once: true,
        }
    }
}

} // verus!
