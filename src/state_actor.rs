//! The owner of the token snapshot: its configuration, its timer schedule, the
//! assembly of a new snapshot and the decisions it takes on each event.
//!
//! The owner is a state machine. Whoever runs it waits for the next event (a
//! read request, a timer tick, the end of a refresh), hands it to
//! [`ActorState::handle`] and performs the action that comes back.

use vstd::prelude::*;

use crate::gitlab::{decimal_text, digit_char};

verus! {

/// The refresh interval, in hours, where none or no valid one is configured.
pub const DATA_REFRESH_HOURS_DEFAULT: u8 = 6;

/// The longest refresh interval, in hours, that a setting may choose.
pub const DATA_REFRESH_HOURS_MAX: u8 = 24;

/// Seconds in an hour.
pub const SECS_PER_HOUR: u64 = 3600;

pub open spec fn is_ascii_digit(c: char) -> bool {
    '0' <= c <= '9'
}

/// The number that the decimal digits `s` write.
pub open spec fn digits_value(s: Seq<char>) -> nat
    decreases s.len(),
{
    if s.len() == 0 {
        0
    } else {
        10 * digits_value(s.drop_last()) + ((s.last() as u32 - '0' as u32) as nat)
    }
}

/// The text `s` without one leading `+`, if it has one.
pub open spec fn without_plus(s: Seq<char>) -> Seq<char> {
    if s.len() > 0 && s[0] == '+' { s.drop_first() } else { s }
}

/// Whether every character of `t` is a decimal digit.
pub open spec fn all_digits(t: Seq<char>) -> bool {
    forall|i: int| 0 <= i < t.len() ==> is_ascii_digit(#[trigger] t[i])
}

/// The `u8` that the text `s` writes: an optional `+` followed by at least one
/// decimal digit and nothing else, with a value that fits in a `u8`.
pub open spec fn u8_text_value(s: Seq<char>) -> Option<u8> {
    let digits = without_plus(s);
    if digits.len() > 0 && all_digits(digits) && digits_value(digits) <= 255 {
        Some(digits_value(digits) as u8)
    } else {
        None
    }
}

/// A prefix of a text reads as no more than the whole text.
proof fn lemma_prefix_value_le(t: Seq<char>, k: int)
    requires
        0 <= k <= t.len(),
    ensures
        digits_value(t.subrange(0, k)) <= digits_value(t),
    decreases t.len(),
{
    if k < t.len() {
        lemma_prefix_value_le(t.drop_last(), k);
        assert(t.drop_last().subrange(0, k) =~= t.subrange(0, k));
    } else {
        assert(t.subrange(0, k) =~= t);
    }
}

/// The `u8` that `s` writes in decimal, with an optional leading `+`.
pub fn parse_u8(s: &str) -> (r: Option<u8>)
    ensures
        r == u8_text_value(s@),
{
    let n = s.unicode_len();
    let mut start: usize = 0;
    if n > 0 && s.get_char(0) == '+' {
        start = 1;
    }
    let ghost digits = s@.subrange(start as int, n as int);
    assert(digits =~= without_plus(s@));
    if start == n {
        return None;
    }
    let mut value: u32 = 0;
    let mut i: usize = start;
    while i < n
        invariant
            start <= i <= n,
            n == s@.len(),
            digits == s@.subrange(start as int, n as int),
            digits == without_plus(s@),
            forall|k: int| 0 <= k < i - start ==> is_ascii_digit(#[trigger] digits[k]),
            value == digits_value(digits.subrange(0, i - start)),
            value <= 255,
        decreases n - i,
    {
        let c = s.get_char(i);
        assert(c == digits[i - start]);
        if !('0' <= c && c <= '9') {
            assert(!is_ascii_digit(digits[i - start]));
            assert(!all_digits(digits));
            return None;
        }
        let next = value * 10 + (c as u32 - '0' as u32);
        proof {
            let p = digits.subrange(0, i - start + 1);
            assert(p.drop_last() =~= digits.subrange(0, i - start));
            assert(digits_value(p) == next);
        }
        if next > 255 {
            proof {
                lemma_prefix_value_le(digits, i - start + 1);
            }
            return None;
        }
        value = next;
        i += 1;
    }
    assert(digits.subrange(0, i - start) =~= digits);
    Some(value as u8)
}

/// The refresh interval, in hours, that the setting `setting` gives: the number
/// it writes where that lies in 1..=24, the default otherwise.
pub open spec fn effective_refresh_hours(setting: Option<Seq<char>>) -> u8 {
    match setting {
        Some(text) => match u8_text_value(text) {
            Some(v) => if 1 <= v <= 24 { v } else { 6 },
            None => 6,
        },
        None => 6,
    }
}

/// The refresh interval, in hours, for the configured value `setting`, if any.
pub fn data_refresh_hours(setting: Option<&str>) -> (r: u8)
    ensures
        r == effective_refresh_hours(
            match setting {
                Some(s) => Some(s@),
                None => None,
            },
        ),
        1 <= r <= 24,
{
    match setting {
        Some(text) => match parse_u8(text) {
            Some(v) => if v > 0 && v <= DATA_REFRESH_HOURS_MAX { v } else { DATA_REFRESH_HOURS_DEFAULT },
            None => DATA_REFRESH_HOURS_DEFAULT,
        },
        None => DATA_REFRESH_HOURS_DEFAULT,
    }
}

/// The decimal text of a number is all digits, does not start with `+`, and
/// reads back as that number.
pub proof fn lemma_decimal_text_reads_back(n: nat)
    ensures
        decimal_text(n).len() > 0,
        decimal_text(n)[0] != '+',
        forall|i: int| 0 <= i < decimal_text(n).len() ==> is_ascii_digit(#[trigger] decimal_text(n)[i]),
        digits_value(decimal_text(n)) == n,
    decreases n,
{
    let d = (n % 10) as nat;
    assert(digit_char(d) as u32 - '0' as u32 == d && is_ascii_digit(digit_char(d))) by {
        assert(d < 10);
    }
    if n >= 10 {
        lemma_decimal_text_reads_back(n / 10);
        let t = decimal_text(n);
        assert(t.drop_last() =~= decimal_text(n / 10));
        assert(t[0] == decimal_text(n / 10)[0]);
        assert(t.last() == digit_char(d));
        assert(digits_value(t) == 10 * digits_value(t.drop_last()) + d);
        assert(n == 10 * (n / 10) + d);
        assert forall|i: int| 0 <= i < t.len() implies is_ascii_digit(#[trigger] t[i]) by {
            if i < t.len() - 1 {
                assert(t[i] == decimal_text(n / 10)[i]);
            }
        }
    } else {
        assert(decimal_text(n).drop_last() =~= Seq::<char>::empty());
        assert(digits_value(decimal_text(n)) == 10 * digits_value(Seq::<char>::empty()) + d);
    }
}

/// Every interval from 1 to 24 hours, written in decimal, is taken as it is;
/// any other number, and any text that is not a number, gives the default.
pub proof fn lemma_refresh_hours_setting(hours: u8, text: Seq<char>)
    ensures
        1 <= hours <= 24 ==> effective_refresh_hours(Some(decimal_text(hours as nat))) == hours,
        !(hours >= 1 && hours <= 24) ==> effective_refresh_hours(Some(decimal_text(hours as nat))) == 6,
        u8_text_value(text) is None ==> effective_refresh_hours(Some(text)) == 6,
        effective_refresh_hours(None) == 6,
{
    lemma_decimal_text_reads_back(hours as nat);
}

/// The refresh interval in seconds, for an interval of `hours` hours.
pub fn refresh_period_secs(hours: u8) -> (r: u64)
    ensures
        r == hours as u64 * 3600,
{
    hours as u64 * SECS_PER_HOUR
}

/// The text that one rendered fragment adds; a fragment that could not be
/// rendered adds nothing.
pub open spec fn fragment_text(f: Option<String>) -> Seq<char> {
    match f {
        Some(t) => t@,
        None => Seq::empty(),
    }
}

/// The fragments of one project's tokens, one after the other.
pub open spec fn listing_text(fs: Seq<Option<String>>) -> Seq<char>
    decreases fs.len(),
{
    if fs.len() == 0 {
        Seq::empty()
    } else {
        listing_text(fs.drop_last()) + fragment_text(fs.last())
    }
}

/// The snapshot for the rendered fragments `ps`, one list per project in the
/// order the projects were fetched: all fragments, one after the other.
pub open spec fn snapshot_text(ps: Seq<Vec<Option<String>>>) -> Seq<char>
    decreases ps.len(),
{
    if ps.len() == 0 {
        Seq::empty()
    } else {
        snapshot_text(ps.drop_last()) + listing_text(ps.last()@)
    }
}

/// Builds the snapshot from the rendered fragments of each project's tokens,
/// one list per project in fetch order, with `None` for a fragment that could
/// not be rendered.
pub fn assemble_snapshot(fragments: &Vec<Vec<Option<String>>>) -> (r: String)
    ensures
        r@ == snapshot_text(fragments@),
{
    let mut out = String::new();
    let mut i: usize = 0;
    while i < fragments.len()
        invariant
            i <= fragments@.len(),
            out@ == snapshot_text(fragments@.subrange(0, i as int)),
        decreases fragments@.len() - i,
    {
        let listing = &fragments[i];
        let mut j: usize = 0;
        while j < listing.len()
            invariant
                i < fragments@.len(),
                listing == fragments@[i as int],
                j <= listing@.len(),
                out@ == snapshot_text(fragments@.subrange(0, i as int)) + listing_text(
                    listing@.subrange(0, j as int),
                ),
            decreases listing@.len() - j,
        {
            match &listing[j] {
                Some(text) => {
                    out.append(text.as_str());
                },
                None => {},
            }
            assert(listing@.subrange(0, j as int + 1).drop_last() =~= listing@.subrange(0, j as int));
            j += 1;
        }
        assert(listing@.subrange(0, j as int) =~= listing@);
        assert(fragments@.subrange(0, i as int + 1).drop_last() =~= fragments@.subrange(0, i as int));
        i += 1;
    }
    assert(fragments@.subrange(0, i as int) =~= fragments@);
    out
}

/// The listings of `ps` that hold at least one token, in the same order.
pub open spec fn with_tokens(ps: Seq<Vec<Option<String>>>) -> Seq<Vec<Option<String>>> {
    ps.filter(|p: Vec<Option<String>>| p@.len() > 0)
}

/// A project without tokens adds nothing to the snapshot: it is the same as
/// that of the projects with at least one token, in the same order.
pub proof fn lemma_projects_without_tokens_add_nothing(ps: Seq<Vec<Option<String>>>)
    ensures
        snapshot_text(ps) == snapshot_text(with_tokens(ps)),
    decreases ps.len(),
{
    reveal(Seq::filter);
    if ps.len() > 0 {
        lemma_projects_without_tokens_add_nothing(ps.drop_last());
        let rest = with_tokens(ps.drop_last());
        if ps.last()@.len() > 0 {
            assert(with_tokens(ps) == rest.push(ps.last()));
            assert(rest.push(ps.last()).drop_last() =~= rest);
        } else {
            assert(with_tokens(ps) == rest);
            assert(listing_text(ps.last()@) =~= Seq::<char>::empty());
            assert(snapshot_text(ps) =~= snapshot_text(ps.drop_last()));
        }
    }
}

/// What the owner reacts to.
pub enum ActorEvent {
    /// A reader asks for the current snapshot.
    GetState,
    /// The refresh timer fired.
    Tick,
    /// A refresh finished with this new snapshot.
    RefreshCompleted(String),
    /// A refresh was abandoned on a transport or decoding error.
    RefreshFailed,
    /// The request channel or the completion channel closed.
    ChannelClosed,
}

/// What the owner asks its runner to do.
pub enum ActorAction {
    /// Answer the reader with this snapshot.
    Reply(String),
    /// Start one refresh, and do not wait for it.
    SpawnRefresh,
    /// Nothing to do.
    Idle,
    /// Leave the loop: no further event is served.
    Stop,
}

/// An event, as mathematical values.
pub enum EventModel {
    GetState,
    Tick,
    RefreshCompleted(Seq<char>),
    RefreshFailed,
    ChannelClosed,
}

/// An action, as mathematical values.
pub enum ActionModel {
    Reply(Seq<char>),
    SpawnRefresh,
    Idle,
    Stop,
}

impl ActorEvent {
    pub open spec fn model(&self) -> EventModel {
        match self {
            ActorEvent::GetState => EventModel::GetState,
            ActorEvent::Tick => EventModel::Tick,
            ActorEvent::RefreshCompleted(t) => EventModel::RefreshCompleted(t@),
            ActorEvent::RefreshFailed => EventModel::RefreshFailed,
            ActorEvent::ChannelClosed => EventModel::ChannelClosed,
        }
    }
}

impl ActorAction {
    pub open spec fn model(&self) -> ActionModel {
        match self {
            ActorAction::Reply(t) => ActionModel::Reply(t@),
            ActorAction::SpawnRefresh => ActionModel::SpawnRefresh,
            ActorAction::Idle => ActionModel::Idle,
            ActorAction::Stop => ActionModel::Stop,
        }
    }
}

/// The owner's state as mathematical values: the committed snapshot (`None`
/// until the first refresh completes), the refresh period, the number of
/// timer ticks so far, and whether it still serves events.
pub struct ActorModel {
    pub snapshot: Option<Seq<char>>,
    pub period_secs: u64,
    pub ticks: u64,
    pub running: bool,
}

/// The snapshot that a reader of `s` is given: the last committed one, or the
/// empty text before any.
pub open spec fn current_text(s: ActorModel) -> Seq<char> {
    match s.snapshot {
        Some(t) => t,
        None => Seq::empty(),
    }
}

/// The owner's state when it starts, for a refresh interval of `hours` hours.
pub open spec fn initial_model(hours: u8) -> ActorModel {
    ActorModel { snapshot: None, period_secs: (hours as u64 * 3600) as u64, ticks: 0, running: true }
}

/// How far after the start the tick numbered `ticks` (counting from zero)
/// falls, in seconds: the first at once, then one every period.
pub open spec fn tick_offset(ticks: u64, period_secs: u64) -> u64 {
    if ticks * period_secs <= u64::MAX {
        (ticks * period_secs) as u64
    } else {
        u64::MAX
    }
}

/// The next state and the action for event `e` in state `s`. Only a completed
/// refresh replaces the snapshot, and it replaces it whole.
pub open spec fn actor_step(s: ActorModel, e: EventModel) -> (ActorModel, ActionModel) {
    if !s.running {
        (s, ActionModel::Stop)
    } else {
        match e {
            EventModel::GetState => (s, ActionModel::Reply(current_text(s))),
            EventModel::Tick => (
                ActorModel { ticks: if s.ticks < u64::MAX { (s.ticks + 1) as u64 } else { s.ticks }, ..s },
                ActionModel::SpawnRefresh,
            ),
            EventModel::RefreshCompleted(t) => (ActorModel { snapshot: Some(t), ..s }, ActionModel::Idle),
            EventModel::RefreshFailed => (s, ActionModel::Idle),
            EventModel::ChannelClosed => (ActorModel { running: false, ..s }, ActionModel::Stop),
        }
    }
}

/// The state after the events `events`, in order, starting from `s`.
pub open spec fn run_events(s: ActorModel, events: Seq<EventModel>) -> ActorModel
    decreases events.len(),
{
    if events.len() == 0 {
        s
    } else {
        run_events(actor_step(s, events[0]).0, events.drop_first())
    }
}

/// The state that the owner of the snapshot keeps.
pub struct ActorState {
    snapshot: Option<String>,
    period_secs: u64,
    ticks: u64,
    running: bool,
}

impl ActorState {
    pub closed spec fn model(&self) -> ActorModel {
        ActorModel {
            snapshot: match self.snapshot {
                Some(t) => Some(t@),
                None => None,
            },
            period_secs: self.period_secs,
            ticks: self.ticks,
            running: self.running,
        }
    }

    /// The owner at its start, for a refresh interval of `hours` hours: no
    /// snapshot yet, and the first tick due at once.
    pub fn new(hours: u8) -> (r: ActorState)
        requires
            1 <= hours <= 24,
        ensures
            r.model() == initial_model(hours),
            current_text(r.model()) == Seq::<char>::empty(),
            tick_offset(r.model().ticks, r.model().period_secs) == 0,
    {
        ActorState { snapshot: None, period_secs: refresh_period_secs(hours), ticks: 0, running: true }
    }

    /// The snapshot that a reader is given now.
    pub fn snapshot(&self) -> (r: String)
        ensures
            r@ == current_text(self.model()),
    {
        match &self.snapshot {
            Some(t) => t.clone(),
            None => String::new(),
        }
    }

    /// Whether the owner still serves events.
    pub fn is_running(&self) -> (r: bool)
        ensures
            r == self.model().running,
    {
        self.running
    }

    /// The refresh period, in seconds.
    pub fn period_secs(&self) -> (r: u64)
        ensures
            r == self.model().period_secs,
    {
        self.period_secs
    }

    /// How many seconds after the start the next tick falls.
    pub fn next_tick_offset_secs(&self) -> (r: u64)
        ensures
            r == tick_offset(self.model().ticks, self.model().period_secs),
    {
        match self.ticks.checked_mul(self.period_secs) {
            Some(offset) => offset,
            None => u64::MAX,
        }
    }

    /// Takes one event, updates the state, and says what to do.
    pub fn handle(&mut self, event: ActorEvent) -> (r: ActorAction)
        ensures
            (final(self).model(), r.model()) == actor_step(old(self).model(), event.model()),
    {
        if !self.running {
            return ActorAction::Stop;
        }
        match event {
            ActorEvent::GetState => ActorAction::Reply(self.snapshot()),
            ActorEvent::Tick => {
                self.ticks = self.ticks.saturating_add(1);
                ActorAction::SpawnRefresh
            },
            ActorEvent::RefreshCompleted(text) => {
                self.snapshot = Some(text);
                ActorAction::Idle
            },
            ActorEvent::RefreshFailed => ActorAction::Idle,
            ActorEvent::ChannelClosed => {
                self.running = false;
                ActorAction::Stop
            },
        }
    }
}

/// Whether `events` holds no completed refresh.
pub open spec fn no_completion(events: Seq<EventModel>) -> bool {
    forall|i: int| 0 <= i < events.len() ==> !(#[trigger] events[i] is RefreshCompleted)
}

/// Events other than a completed refresh leave the snapshot as it is.
pub proof fn lemma_snapshot_changes_only_on_completion(s: ActorModel, events: Seq<EventModel>)
    requires
        no_completion(events),
    ensures
        run_events(s, events).snapshot == s.snapshot,
    decreases events.len(),
{
    if events.len() > 0 {
        assert(!(events[0] is RefreshCompleted));
        let rest = events.drop_first();
        assert forall|i: int| 0 <= i < rest.len() implies !(#[trigger] rest[i] is RefreshCompleted) by {
            assert(rest[i] == events[i + 1]);
        }
        lemma_snapshot_changes_only_on_completion(actor_step(s, events[0]).0, rest);
    }
}

/// Before any refresh has completed, whatever else happened, a reader that is
/// served gets the empty snapshot.
pub proof fn lemma_read_before_first_refresh(hours: u8, events: Seq<EventModel>)
    requires
        no_completion(events),
        run_events(initial_model(hours), events).running,
    ensures
        actor_step(run_events(initial_model(hours), events), EventModel::GetState).1
            == ActionModel::Reply(Seq::<char>::empty()),
{
    lemma_snapshot_changes_only_on_completion(initial_model(hours), events);
}

/// Once a refresh completes with the fragments `fragments`, a reader gets
/// exactly their concatenation, in fetch order.
pub proof fn lemma_read_after_refresh(s: ActorModel, fragments: Seq<Vec<Option<String>>>)
    requires
        s.running,
    ensures
        actor_step(
            actor_step(s, EventModel::RefreshCompleted(snapshot_text(fragments))).0,
            EventModel::GetState,
        ).1 == ActionModel::Reply(snapshot_text(fragments)),
{
}

/// A refresh that fails leaves the state as it was, and a reader still gets
/// the snapshot committed before it.
pub proof fn lemma_failed_refresh_keeps_snapshot(s: ActorModel)
    requires
        s.running,
    ensures
        actor_step(s, EventModel::RefreshFailed).0 == s,
        actor_step(actor_step(s, EventModel::RefreshFailed).0, EventModel::GetState).1
            == ActionModel::Reply(current_text(s)),
{
}

/// The first tick falls at the start, and each later one a full period after
/// the one before, as long as the offsets fit.
pub proof fn lemma_tick_schedule(hours: u8, ticks: u64)
    ensures
        tick_offset(initial_model(hours).ticks, initial_model(hours).period_secs) == 0,
        initial_model(hours).period_secs == hours as u64 * 3600,
        ticks < u64::MAX && (ticks as int + 1) * (hours as u64 * 3600) <= u64::MAX ==>
            tick_offset((ticks + 1) as u64, initial_model(hours).period_secs)
                == tick_offset(ticks, initial_model(hours).period_secs) + hours as u64 * 3600,
{
    let p = hours as u64 * 3600;
    assert((ticks as int + 1) * p == ticks as int * p + p) by (nonlinear_arith);
    assert(ticks as int * p <= (ticks as int + 1) * p) by (nonlinear_arith)
        requires
            0 <= ticks,
            0 <= p,
    ;
}

} // verus!
