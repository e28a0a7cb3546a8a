//! The commands that are running now, as the daemon's event stream tells.
//!
//! The daemon sends NDJSON events (`command_start` / `command_end`) and keeps
//! no state and no replay, so the table only reflects what happened since the
//! connection was made.
use vstd::prelude::*;

use crate::json::{json_event, read_event};
use crate::text::{lemma_insert_to_multiset, same_text};
use crate::whitelist::{hides_spec, Whitelist};

verus! {

/// A command running in some terminal session.
pub struct RunningCommand {
    pub session_id: String,
    pub command: String,
    /// The IEEE-754 bit pattern of the start time that the daemon reported,
    /// in seconds since the Unix epoch.
    pub started_at_bits: u64,
}

/// The value of a `RunningCommand`.
pub struct CommandView {
    pub session_id: Seq<char>,
    pub command: Seq<char>,
    pub started_at_bits: u64,
}

impl View for RunningCommand {
    type V = CommandView;

    open spec fn view(&self) -> CommandView {
        CommandView {
            session_id: self.session_id@,
            command: self.command@,
            started_at_bits: self.started_at_bits,
        }
    }
}

impl RunningCommand {
    /// A copy of this command.
    pub fn duplicate(&self) -> (c: RunningCommand)
        ensures
            c@ == self@,
    {
        RunningCommand {
            session_id: self.session_id.clone(),
            command: self.command.clone(),
            started_at_bits: self.started_at_bits,
        }
    }
}

/// The fields of a daemon event line that the tracker reads.
pub struct EventFields {
    pub session_id: Option<String>,
    pub kind: Option<String>,
    pub command: Option<String>,
    /// The bit pattern of the `ts` number, read as an `f64`.
    pub ts_bits: Option<u64>,
}

impl View for EventFields {
    type V = (Option<Seq<char>>, Option<Seq<char>>, Option<Seq<char>>, Option<u64>);

    open spec fn view(&self) -> Self::V {
        (
            match self.session_id {
                Some(s) => Some(s@),
                None => None,
            },
            match self.kind {
                Some(s) => Some(s@),
                None => None,
            },
            match self.command {
                Some(s) => Some(s@),
                None => None,
            },
            self.ts_bits,
        )
    }
}

/// The values of a sequence of commands.
pub open spec fn views(s: Seq<RunningCommand>) -> Seq<CommandView> {
    s.map_values(|c: RunningCommand| c@)
}

/// Whether some command of `s` runs in session `sid`.
pub open spec fn has_session(s: Seq<CommandView>, sid: Seq<char>) -> bool {
    exists|i: int| 0 <= i < s.len() && #[trigger] s[i].session_id == sid
}

/// Where in `s` the command of session `sid` stands (meaningful where `has_session`).
pub open spec fn session_index(s: Seq<CommandView>, sid: Seq<char>) -> int {
    choose|i: int| 0 <= i < s.len() && #[trigger] s[i].session_id == sid
}

/// No two commands of `s` share a session: a session runs one foreground
/// command at a time.
pub open spec fn distinct_sessions(s: Seq<CommandView>) -> bool {
    forall|i: int, j: int|
        0 <= i < s.len() && 0 <= j < s.len() && i != j ==> #[trigger] s[i].session_id
            != #[trigger] s[j].session_id
}

/// `s` after command `c` started: it replaces the command of its session, if any.
pub open spec fn started(s: Seq<CommandView>, c: CommandView) -> Seq<CommandView> {
    if has_session(s, c.session_id) {
        s.update(session_index(s, c.session_id), c)
    } else {
        s.push(c)
    }
}

/// `s` after the command of session `sid` ended. A session that has no command
/// (a new session reports an end at its first prompt) changes nothing.
pub open spec fn ended(s: Seq<CommandView>, sid: Seq<char>) -> Seq<CommandView> {
    if has_session(s, sid) {
        s.remove(session_index(s, sid))
    } else {
        s
    }
}

/// `s` after an event line whose fields are `ev` (`None` for a line that is
/// not JSON). Events without a string `session_id`, and events of other types,
/// change nothing; a start without `command` records an empty command, one
/// without `ts` a start time of 0.
pub open spec fn after_event(
    s: Seq<CommandView>,
    ev: Option<(Option<Seq<char>>, Option<Seq<char>>, Option<Seq<char>>, Option<u64>)>,
) -> Seq<CommandView> {
    match ev {
        Some((Some(sid), kind, command, ts)) => if kind == Some("command_start"@) {
            started(
                s,
                CommandView {
                    session_id: sid,
                    command: match command {
                        Some(c) => c,
                        None => Seq::empty(),
                    },
                    started_at_bits: match ts {
                        Some(t) => t,
                        None => 0,
                    },
                },
            )
        } else if kind == Some("command_end"@) {
            ended(s, sid)
        } else {
            s
        },
        _ => s,
    }
}

/// The integer by which `f64::total_cmp` orders the double with bit pattern
/// `bits`: the bits read as an `i64`, with all bits but the sign flipped where
/// the sign is set.
pub open spec fn order_key(bits: u64) -> i64 {
    if bits >= 0x8000_0000_0000_0000 {
        (bits ^ 0x7fff_ffff_ffff_ffff) as i64
    } else {
        bits as i64
    }
}

/// Whether `s` is in ascending order of start time.
pub open spec fn ordered_by_start(s: Seq<CommandView>) -> bool {
    forall|i: int, j: int|
        0 <= i < j < s.len() ==> order_key(#[trigger] s[i].started_at_bits) <= order_key(
            #[trigger] s[j].started_at_bits,
        )
}

/// The key by which start times are ordered (see `order_key`).
pub fn start_order_key(bits: u64) -> (k: i64)
    ensures
        k == order_key(bits),
{
    if bits >= 0x8000_0000_0000_0000 {
        (bits ^ 0x7fff_ffff_ffff_ffff) as i64
    } else {
        bits as i64
    }
}

proof fn lemma_index_of_session(s: Seq<CommandView>, i: int)
    requires
        distinct_sessions(s),
        0 <= i < s.len(),
    ensures
        has_session(s, s[i].session_id),
        session_index(s, s[i].session_id) == i,
{
    assert(s[i].session_id == s[i].session_id);
}

/// A reordering of a table with one command per session has one command per
/// session too.
proof fn lemma_permutation_keeps_sessions_distinct(a: Seq<CommandView>, b: Seq<CommandView>)
    requires
        a.to_multiset() =~= b.to_multiset(),
        distinct_sessions(b),
    ensures
        distinct_sessions(a),
{
    broadcast use vstd::seq_lib::group_to_multiset_ensures;

    assert(b.no_duplicates()) by {
        assert forall|i: int, j: int| 0 <= i < b.len() && 0 <= j < b.len() && i != j implies b[i]
            != b[j] by {
            assert(b[i].session_id != b[j].session_id);
        }
    }
    b.lemma_multiset_has_no_duplicates();
    a.lemma_multiset_has_no_duplicates_conv();
    assert forall|i: int, j: int|
        0 <= i < a.len() && 0 <= j < a.len() && i != j implies #[trigger] a[i].session_id
        != #[trigger] a[j].session_id by {
        assert(a.to_multiset().count(a[i]) > 0);
        assert(a.to_multiset().count(a[j]) > 0);
        assert(b.contains(a[i]));
        assert(b.contains(a[j]));
        let x = choose|x: int| 0 <= x < b.len() && b[x] == a[i];
        let y = choose|y: int| 0 <= y < b.len() && b[y] == a[j];
        assert(a[i] != a[j]);
    }
}

/// The running commands, and whether the daemon's socket is connected.
pub struct CommandTracker {
    connected: bool,
    running: Vec<RunningCommand>,
}

impl CommandTracker {
    #[verifier::type_invariant]
    spec fn one_command_per_session(&self) -> bool {
        distinct_sessions(views(self.running@))
    }

    /// Whether the daemon's socket is connected.
    pub closed spec fn is_connected(&self) -> bool {
        self.connected
    }

    /// The running commands, one per session.
    pub closed spec fn table(&self) -> Seq<CommandView> {
        views(self.running@)
    }

    /// A tracker that is not connected and knows of no command.
    pub fn new() -> (t: CommandTracker)
        ensures
            !t.is_connected(),
            t.table() == Seq::<CommandView>::empty(),
            distinct_sessions(t.table()),
    {
        let t = CommandTracker { connected: false, running: Vec::new() };
        assert(views(t.running@) =~= Seq::<CommandView>::empty());
        t
    }

    /// Records whether the socket is connected. On a disconnect the table is
    /// cleared: what it held is guesswork from then on, and an empty panel is
    /// better than a false "still running".
    pub fn set_connected(&mut self, connected: bool)
        ensures
            final(self).is_connected() == connected,
            connected ==> final(self).table() == old(self).table(),
            !connected ==> final(self).table() == Seq::<CommandView>::empty(),
            distinct_sessions(final(self).table()),
    {
        proof {
            use_type_invariant(&*self);
        }
        self.connected = connected;
        if !connected {
            self.running = Vec::new();
            assert(views(self.running@) =~= Seq::<CommandView>::empty());
        }
    }

    /// Whether the socket is connected: the sign that the daemon is really working.
    pub fn connected(&self) -> (r: bool)
        ensures
            r == self.is_connected(),
    {
        self.connected
    }

    /// Where the command of session `sid` stands in the table, if there is one.
    fn find_session(&self, sid: &str) -> (r: Option<usize>)
        ensures
            match r {
                Some(i) => i < self.table().len() && session_index(self.table(), sid@) == i
                    && has_session(self.table(), sid@),
                None => !has_session(self.table(), sid@),
            },
    {
        proof {
            use_type_invariant(self);
        }
        for i in 0..self.running.len()
            invariant
                distinct_sessions(self.table()),
                forall|j: int| 0 <= j < i ==> #[trigger] self.table()[j].session_id != sid@,
        {
            if same_text(self.running[i].session_id.as_str(), sid) {
                proof {
                    lemma_index_of_session(self.table(), i as int);
                }
                return Some(i);
            }
        }
        None
    }

    /// Applies an event whose fields are `event` (`None` for a line that is not JSON).
    pub fn apply_event(&mut self, event: Option<EventFields>)
        ensures
            final(self).is_connected() == old(self).is_connected(),
            final(self).table() == after_event(
                old(self).table(),
                match event {
                    Some(f) => Some(f@),
                    None => None,
                },
            ),
            distinct_sessions(final(self).table()),
    {
        proof {
            use_type_invariant(&*self);
        }
        let fields = match event {
            Some(f) => f,
            None => return,
        };
        let sid = match fields.session_id {
            Some(s) => s,
            None => return,
        };
        let (is_start, is_end) = match &fields.kind {
            Some(k) => (same_text(k.as_str(), "command_start"), same_text(k.as_str(), "command_end")),
            None => (false, false),
        };
        let ghost before = self.table();
        if is_start {
            let command = match fields.command {
                Some(c) => c,
                None => String::new(),
            };
            let started_at_bits = match fields.ts_bits {
                Some(t) => t,
                None => 0,
            };
            let slot = self.find_session(sid.as_str());
            let entry = RunningCommand { session_id: sid, command, started_at_bits };
            let mut running: Vec<RunningCommand> = Vec::new();
            std::mem::swap(&mut running, &mut self.running);
            match slot {
                Some(i) => {
                    running.set(i, entry);
                },
                None => {
                    running.push(entry);
                },
            }
            proof {
                assert(views(running@) =~= started(before, entry@));
                assert(distinct_sessions(views(running@)));
            }
            self.running = running;
        } else if is_end {
            let slot = self.find_session(sid.as_str());
            match slot {
                Some(i) => {
                    let mut running: Vec<RunningCommand> = Vec::new();
                    std::mem::swap(&mut running, &mut self.running);
                    running.remove(i);
                    proof {
                        assert(views(running@) =~= ended(before, sid@));
                        assert(distinct_sessions(views(running@)));
                    }
                    self.running = running;
                },
                None => {},
            }
        }
    }

    /// Applies one line of the daemon's event stream.
    pub fn apply(&mut self, line: &str)
        ensures
            final(self).is_connected() == old(self).is_connected(),
            final(self).table() == after_event(
                old(self).table(),
                json_event(line@, "session_id"@, "type"@, "command"@, "ts"@),
            ),
            distinct_sessions(final(self).table()),
    {
        let event = read_event(line, "session_id", "type", "command", "ts");
        self.apply_event(event);
    }

    /// The running commands, longest-running first (ascending start time):
    /// the panel is there to show what is stuck.
    pub fn commands(&self) -> (r: Vec<RunningCommand>)
        ensures
            views(r@).to_multiset() =~= self.table().to_multiset(),
            ordered_by_start(views(r@)),
            r@.len() == self.table().len(),
            distinct_sessions(views(r@)),
    {
        broadcast use vstd::seq_lib::group_to_multiset_ensures;

        proof {
            use_type_invariant(self);
        }
        let mut r: Vec<RunningCommand> = Vec::new();
        for i in 0..self.running.len()
            invariant
                ordered_by_start(views(r@)),
                views(r@).to_multiset() =~= views(self.running@.take(i as int)).to_multiset(),
                r@.len() == i,
        {
            let x = self.running[i].duplicate();
            let key = start_order_key(x.started_at_bits);
            let mut p: usize = 0;
            while p < r.len() && start_order_key(r[p].started_at_bits) <= key
                invariant
                    p <= r@.len(),
                    key == order_key(x.started_at_bits),
                    forall|q: int|
                        0 <= q < p ==> order_key(#[trigger] views(r@)[q].started_at_bits) <= key,
                decreases r@.len() - p,
            {
                p += 1;
            }
            let ghost old_views = views(r@);
            r.insert(p, x);
            proof {
                assert(views(r@) =~= old_views.insert(p as int, x@));
                lemma_insert_to_multiset(old_views, p as int, x@);
                assert(views(self.running@.take(i + 1)) =~= views(self.running@.take(i as int)).push(
                    x@,
                ));
                vstd::seq_lib::to_multiset_build(views(self.running@.take(i as int)), x@);
                let vs = views(r@);
                assert forall|a: int, b: int| 0 <= a < b < vs.len() implies order_key(
                    #[trigger] vs[a].started_at_bits,
                ) <= order_key(#[trigger] vs[b].started_at_bits) by {
                    if a < p && b > p {
                        assert(order_key(vs[a].started_at_bits) <= key);
                        assert(key < order_key(old_views[p as int].started_at_bits));
                    } else if a == p && b > p {
                        assert(key < order_key(old_views[p as int].started_at_bits));
                    }
                }
            }
        }
        assert(self.running@.take(self.running@.len() as int) =~= self.running@);
        proof {
            lemma_permutation_keeps_sessions_distinct(views(r@), self.table());
        }
        r
    }
}

/// The commands of `cs` to show: those that have run long enough (`aged`,
/// aligned with `cs`) and that the whitelist `entries` does not hide, in order.
pub open spec fn visible(cs: Seq<CommandView>, aged: Seq<bool>, entries: Seq<Seq<char>>) -> Seq<
    CommandView,
>
    decreases cs.len(),
{
    if cs.len() == 0 {
        Seq::empty()
    } else {
        let rest = visible(cs.drop_last(), aged.drop_last(), entries);
        if aged.last() && !hides_spec(entries, cs.last().command) {
            rest.push(cs.last())
        } else {
            rest
        }
    }
}

/// The single place that decides which commands to show: those that have run
/// long enough (`old_enough[i]` tells it of `commands[i]`) and that the
/// whitelist does not hide, in the order of `commands`. The panel and the tray
/// icon both go through here, so they cannot disagree.
pub fn visible_commands(
    commands: &Vec<RunningCommand>,
    old_enough: &Vec<bool>,
    whitelist: &Whitelist,
) -> (r: Vec<RunningCommand>)
    requires
        commands@.len() == old_enough@.len(),
    ensures
        views(r@) == visible(views(commands@), old_enough@, whitelist@),
{
    let mut r: Vec<RunningCommand> = Vec::new();
    for i in 0..commands.len()
        invariant
            commands@.len() == old_enough@.len(),
            views(r@) =~= visible(
                views(commands@).take(i as int),
                old_enough@.take(i as int),
                whitelist@,
            ),
    {
        let ghost before = views(r@);
        let ghost cs = views(commands@);
        assert(cs.take(i + 1).drop_last() =~= cs.take(i as int));
        assert(old_enough@.take(i + 1).drop_last() =~= old_enough@.take(i as int));
        if old_enough[i] && !whitelist.hides(commands[i].command.as_str()) {
            r.push(commands[i].duplicate());
            assert(views(r@) =~= before.push(cs[i as int]));
        }
    }
    assert(views(commands@).take(commands@.len() as int) =~= views(commands@));
    assert(old_enough@.take(commands@.len() as int) =~= old_enough@);
    r
}

proof fn lemma_visible_members(cs: Seq<CommandView>, aged: Seq<bool>, entries: Seq<Seq<char>>)
    requires
        cs.len() == aged.len(),
    ensures
        forall|k: int|
            0 <= k < visible(cs, aged, entries).len() ==> exists|i: int|
                0 <= i < cs.len() && aged[i] && !hides_spec(entries, cs[i].command)
                    && #[trigger] visible(cs, aged, entries)[k] == cs[i],
    decreases cs.len(),
{
    if cs.len() > 0 {
        lemma_visible_members(cs.drop_last(), aged.drop_last(), entries);
        let v = visible(cs, aged, entries);
        let rest = visible(cs.drop_last(), aged.drop_last(), entries);
        assert forall|k: int| 0 <= k < v.len() implies exists|i: int|
            0 <= i < cs.len() && aged[i] && !hides_spec(entries, cs[i].command) && #[trigger] v[k]
                == cs[i] by {
            if k < rest.len() {
                assert(v[k] == rest[k]);
                let i = choose|i: int|
                    0 <= i < cs.drop_last().len() && aged.drop_last()[i] && !hides_spec(
                        entries,
                        cs.drop_last()[i].command,
                    ) && #[trigger] rest[k] == cs.drop_last()[i];
                assert(cs[i] == cs.drop_last()[i]);
            } else {
                assert(v[k] == cs[cs.len() - 1]);
            }
        }
    }
}

/// Law: no command that is shown is hidden by the whitelist or younger than
/// the threshold.
pub proof fn law_shown_commands_are_old_and_not_hidden(
    cs: Seq<CommandView>,
    aged: Seq<bool>,
    entries: Seq<Seq<char>>,
    k: int,
)
    requires
        cs.len() == aged.len(),
        0 <= k < visible(cs, aged, entries).len(),
    ensures
        !hides_spec(entries, visible(cs, aged, entries)[k].command),
        exists|i: int|
            0 <= i < cs.len() && aged[i] && #[trigger] cs[i] == visible(cs, aged, entries)[k],
{
    lemma_visible_members(cs, aged, entries);
    let i = choose|i: int|
        0 <= i < cs.len() && aged[i] && !hides_spec(entries, cs[i].command) && #[trigger] visible(
            cs,
            aged,
            entries,
        )[k] == cs[i];
    assert(cs[i] == visible(cs, aged, entries)[k]);
}

/// Law: filtering keeps the order, so the panel still lists the
/// longest-running command first.
pub proof fn law_shown_commands_keep_start_order(
    cs: Seq<CommandView>,
    aged: Seq<bool>,
    entries: Seq<Seq<char>>,
)
    requires
        cs.len() == aged.len(),
        ordered_by_start(cs),
    ensures
        ordered_by_start(visible(cs, aged, entries)),
    decreases cs.len(),
{
    if cs.len() > 0 {
        let init = cs.drop_last();
        assert(ordered_by_start(init)) by {
            assert forall|i: int, j: int| 0 <= i < j < init.len() implies order_key(
                #[trigger] init[i].started_at_bits,
            ) <= order_key(#[trigger] init[j].started_at_bits) by {
                assert(init[i] == cs[i] && init[j] == cs[j]);
            }
        }
        law_shown_commands_keep_start_order(init, aged.drop_last(), entries);
        lemma_visible_members(init, aged.drop_last(), entries);
        let rest = visible(init, aged.drop_last(), entries);
        let v = visible(cs, aged, entries);
        assert forall|a: int, b: int| 0 <= a < b < v.len() implies order_key(
            #[trigger] v[a].started_at_bits,
        ) <= order_key(#[trigger] v[b].started_at_bits) by {
            if b < rest.len() {
                assert(v[a] == rest[a] && v[b] == rest[b]);
            } else {
                assert(v[a] == rest[a]);
                let i = choose|i: int|
                    0 <= i < init.len() && aged.drop_last()[i] && !hides_spec(
                        entries,
                        init[i].command,
                    ) && #[trigger] rest[a] == init[i];
                assert(v[b] == cs[cs.len() - 1]);
                assert(cs[i] == init[i]);
            }
        }
    }
}

/// Law: a command that started and then ended leaves its session with no
/// command.
pub proof fn law_start_then_end_forgets(s: Seq<CommandView>, c: CommandView)
    requires
        distinct_sessions(s),
    ensures
        !has_session(ended(started(s, c), c.session_id), c.session_id),
{
    law_events_keep_one_command_per_session(
        s,
        Some((Some(c.session_id), Some("command_start"@), Some(c.command), Some(c.started_at_bits))),
    );
    let t = started(s, c);
    assert(has_session(t, c.session_id)) by {
        if has_session(s, c.session_id) {
            assert(t[session_index(s, c.session_id)].session_id == c.session_id);
        } else {
            assert(t[s.len() as int].session_id == c.session_id);
        }
    }
    let k = session_index(t, c.session_id);
    let u = t.remove(k);
    if has_session(u, c.session_id) {
        let i = choose|i: int| 0 <= i < u.len() && #[trigger] u[i].session_id == c.session_id;
        if i < k {
            assert(u[i] == t[i]);
        } else {
            assert(u[i] == t[i + 1]);
        }
    }
}

/// Law: a start records the command as its session's command.
pub proof fn law_start_records_command(s: Seq<CommandView>, c: CommandView)
    requires
        distinct_sessions(s),
    ensures
        has_session(started(s, c), c.session_id),
        started(s, c)[session_index(started(s, c), c.session_id)] == c,
{
    law_events_keep_one_command_per_session(
        s,
        Some((Some(c.session_id), Some("command_start"@), Some(c.command), Some(c.started_at_bits))),
    );
    let t = started(s, c);
    let k = if has_session(s, c.session_id) {
        session_index(s, c.session_id)
    } else {
        s.len() as int
    };
    assert(t[k] == c);
    lemma_index_of_session(t, k);
}

/// Law: whatever the events, each session has at most one running command.
pub proof fn law_events_keep_one_command_per_session(
    s: Seq<CommandView>,
    ev: Option<(Option<Seq<char>>, Option<Seq<char>>, Option<Seq<char>>, Option<u64>)>,
)
    requires
        distinct_sessions(s),
    ensures
        distinct_sessions(after_event(s, ev)),
{
    let t = after_event(s, ev);
    assert forall|i: int, j: int|
        0 <= i < t.len() && 0 <= j < t.len() && i != j implies #[trigger] t[i].session_id
        != #[trigger] t[j].session_id by {
        if let Some((Some(sid), kind, command, ts)) = ev {
            if kind == Some("command_start"@) {
                if has_session(s, sid) {
                    let k = session_index(s, sid);
                    if i == k {
                        assert(s[j].session_id != s[k].session_id);
                    } else if j == k {
                        assert(s[i].session_id != s[k].session_id);
                    } else {
                        assert(t[i] == s[i] && t[j] == s[j]);
                    }
                } else {
                    if i == s.len() {
                        assert(t[j] == s[j]);
                    } else if j == s.len() {
                        assert(t[i] == s[i]);
                    } else {
                        assert(t[i] == s[i] && t[j] == s[j]);
                    }
                }
            } else if kind == Some("command_end"@) && has_session(s, sid) {
                let k = session_index(s, sid);
                let ii = if i < k { i } else { i + 1 };
                let jj = if j < k { j } else { j + 1 };
                assert(t[i] == s[ii] && t[j] == s[jj]);
            }
        }
    }
}

/// Law: the end of a session that runs no command (a new session reports one
/// at its first prompt) changes nothing.
pub proof fn law_end_of_unknown_session_changes_nothing(s: Seq<CommandView>, sid: Seq<char>)
    requires
        !has_session(s, sid),
    ensures
        ended(s, sid) == s,
{
}

/// Law: `order_key` tells apart every two start times with different bit
/// patterns, so only identical start times tie.
pub proof fn law_order_key_injective(a: u64, b: u64)
    requires
        a != b,
    ensures
        order_key(a) != order_key(b),
{
    assert(a != b ==> (if a >= 0x8000_0000_0000_0000 {
        (a ^ 0x7fff_ffff_ffff_ffff) as i64
    } else {
        a as i64
    }) != (if b >= 0x8000_0000_0000_0000 {
        (b ^ 0x7fff_ffff_ffff_ffff) as i64
    } else {
        b as i64
    })) by (bit_vector);
}

/// Law: `order_key` puts every start time with the sign bit set before every
/// one without, and orders those without the sign bit (the non-negative
/// times the daemon sends) by their bit patterns, which is their numeric order.
pub proof fn law_order_key_sign_and_positive_order(a: u64, b: u64)
    ensures
        a >= 0x8000_0000_0000_0000 && b < 0x8000_0000_0000_0000 ==> order_key(a) < order_key(b),
        a < 0x8000_0000_0000_0000 && b < 0x8000_0000_0000_0000 ==> (order_key(a) <= order_key(b)
            <==> a <= b),
{
    assert(a >= 0x8000_0000_0000_0000 ==> ((a ^ 0x7fff_ffff_ffff_ffff) as i64) < 0) by (bit_vector);
    assert(a < 0x8000_0000_0000_0000 ==> (a as i64) == a) by (bit_vector);
    assert(b < 0x8000_0000_0000_0000 ==> (b as i64) == b) by (bit_vector);
}

/// The commands of `s` that the whitelist `entries` does not hide, in order.
pub open spec fn unhidden(s: Seq<CommandView>, entries: Seq<Seq<char>>) -> Seq<CommandView>
    decreases s.len(),
{
    if s.len() == 0 {
        Seq::empty()
    } else {
        let rest = unhidden(s.drop_last(), entries);
        if !hides_spec(entries, s.last().command) {
            rest.push(s.last())
        } else {
            rest
        }
    }
}

/// Law: a whitelist that hides at least what another hides shows exactly the
/// commands the other shows, less those it hides besides, in the same order:
/// more entries never make a command visible.
pub proof fn law_more_entries_show_fewer_commands(
    cs: Seq<CommandView>,
    aged: Seq<bool>,
    fewer: Seq<Seq<char>>,
    more: Seq<Seq<char>>,
)
    requires
        cs.len() == aged.len(),
        forall|c: Seq<char>| #[trigger] hides_spec(fewer, c) ==> hides_spec(more, c),
    ensures
        visible(cs, aged, more) == unhidden(visible(cs, aged, fewer), more),
    decreases cs.len(),
{
    if cs.len() > 0 {
        law_more_entries_show_fewer_commands(cs.drop_last(), aged.drop_last(), fewer, more);
        let c = cs.last();
        let rest = visible(cs.drop_last(), aged.drop_last(), fewer);
        if aged.last() && !hides_spec(fewer, c.command) {
            assert(rest.push(c).drop_last() =~= rest);
            assert(rest.push(c).last() == c);
        } else if aged.last() {
            assert(hides_spec(more, c.command));
        }
    }
}

/// Law: an end event for session `sid` takes out exactly that session's
/// command and keeps every other session's command as it was: the table
/// loses one occurrence of the ended command and nothing else, and any other
/// session has a command after the end exactly when it had one before.
pub proof fn law_end_removes_only_its_session(s: Seq<CommandView>, sid: Seq<char>, i: int, x: Seq<char>)
    requires
        distinct_sessions(s),
        0 <= i < s.len(),
        s[i].session_id == sid,
        x != sid,
    ensures
        ended(s, sid).to_multiset() == s.to_multiset().remove(s[i]),
        ended(s, sid).len() == s.len() - 1,
        !has_session(ended(s, sid), sid),
        has_session(ended(s, sid), x) == has_session(s, x),
{
    broadcast use vstd::seq_lib::group_to_multiset_ensures;

    lemma_index_of_session(s, i);
    let t = s.remove(i);
    assert(ended(s, sid) == t);
    if has_session(t, sid) {
        let j = choose|j: int| 0 <= j < t.len() && #[trigger] t[j].session_id == sid;
        if j < i {
            assert(t[j] == s[j]);
        } else {
            assert(t[j] == s[j + 1]);
        }
    }
    if has_session(s, x) {
        let j = choose|j: int| 0 <= j < s.len() && #[trigger] s[j].session_id == x;
        if j < i {
            assert(t[j] == s[j]);
        } else {
            assert(t[j - 1] == s[j]);
        }
    }
    if has_session(t, x) {
        let j = choose|j: int| 0 <= j < t.len() && #[trigger] t[j].session_id == x;
        if j < i {
            assert(t[j] == s[j]);
        } else {
            assert(t[j] == s[j + 1]);
        }
    }
}

/// Law: a start of command `c` changes only the entry of `c`'s session: the
/// table gains `c` and, where the session ran a command `s[i]`, loses that one
/// command; every other session keeps its command, and no session appears or
/// disappears but `c`'s.
pub proof fn law_start_changes_only_its_session(s: Seq<CommandView>, c: CommandView, x: Seq<char>)
    requires
        distinct_sessions(s),
        x != c.session_id,
    ensures
        forall|i: int|
            0 <= i < s.len() && #[trigger] s[i].session_id == c.session_id ==> started(
                s,
                c,
            ).to_multiset() == s.to_multiset().insert(c).remove(s[i]) && started(s, c).len()
                == s.len(),
        !has_session(s, c.session_id) ==> started(s, c).to_multiset() == s.to_multiset().insert(c)
            && started(s, c).len() == s.len() + 1,
        has_session(started(s, c), c.session_id),
        has_session(started(s, c), x) == has_session(s, x),
{
    broadcast use vstd::seq_lib::group_to_multiset_ensures;

    law_start_records_command(s, c);
    let t = started(s, c);
    assert forall|i: int|
        0 <= i < s.len() && #[trigger] s[i].session_id == c.session_id implies t.to_multiset()
        == s.to_multiset().insert(c).remove(s[i]) && t.len() == s.len() by {
        lemma_index_of_session(s, i);
    }
    if has_session(s, c.session_id) {
        let k = session_index(s, c.session_id);
        if has_session(s, x) {
            let j = choose|j: int| 0 <= j < s.len() && #[trigger] s[j].session_id == x;
            assert(t[j] == s[j]);
        }
        if has_session(t, x) {
            let j = choose|j: int| 0 <= j < t.len() && #[trigger] t[j].session_id == x;
            assert(t[j] == s[j]);
        }
    } else {
        if has_session(s, x) {
            let j = choose|j: int| 0 <= j < s.len() && #[trigger] s[j].session_id == x;
            assert(t[j] == s[j]);
        }
        if has_session(t, x) {
            let j = choose|j: int| 0 <= j < t.len() && #[trigger] t[j].session_id == x;
            assert(t[j] == s[j]);
        }
    }
}

/// Law: choosing what to show goes command by command: the choice for a
/// table made of two parts is the choice for the first part followed by the
/// choice for the second. With `law_shown_single_command`, every command that
/// has run long enough and is not hidden is shown, whatever else is in the
/// table, and nothing else is.
pub proof fn law_shown_commands_split(
    cs1: Seq<CommandView>,
    aged1: Seq<bool>,
    cs2: Seq<CommandView>,
    aged2: Seq<bool>,
    entries: Seq<Seq<char>>,
)
    requires
        cs1.len() == aged1.len(),
        cs2.len() == aged2.len(),
    ensures
        visible(cs1 + cs2, aged1 + aged2, entries) == visible(cs1, aged1, entries) + visible(
            cs2,
            aged2,
            entries,
        ),
    decreases cs2.len(),
{
    if cs2.len() == 0 {
        assert(cs1 + cs2 =~= cs1);
        assert(aged1 + aged2 =~= aged1);
        assert(visible(cs1, aged1, entries) + visible(cs2, aged2, entries) =~= visible(
            cs1,
            aged1,
            entries,
        ));
    } else {
        law_shown_commands_split(cs1, aged1, cs2.drop_last(), aged2.drop_last(), entries);
        assert((cs1 + cs2).drop_last() =~= cs1 + cs2.drop_last());
        assert((aged1 + aged2).drop_last() =~= aged1 + aged2.drop_last());
        assert((cs1 + cs2).last() == cs2.last());
        assert((aged1 + aged2).last() == aged2.last());
        let a = visible(cs1, aged1, entries);
        let b = visible(cs2.drop_last(), aged2.drop_last(), entries);
        assert((a + b).push(cs2.last()) =~= a + b.push(cs2.last()));
    }
}

/// Law: a single command is shown exactly when it has run long enough and
/// the whitelist does not hide it.
pub proof fn law_shown_single_command(c: CommandView, aged: bool, entries: Seq<Seq<char>>)
    ensures
        visible(seq![c], seq![aged], entries) == if aged && !hides_spec(entries, c.command) {
            seq![c]
        } else {
            Seq::<CommandView>::empty()
        },
{
    assert(seq![c].drop_last() =~= Seq::<CommandView>::empty());
    assert(seq![aged].drop_last() =~= Seq::<bool>::empty());
    assert(visible(Seq::<CommandView>::empty(), Seq::<bool>::empty(), entries) == Seq::<
        CommandView,
    >::empty());
    assert(seq![c].last() == c && seq![aged].last() == aged);
    assert(Seq::<CommandView>::empty().push(c) =~= seq![c]);
}

/// Law: a command that has run long enough and is not hidden is shown, at its
/// place: what is shown is what the commands before it show, then it, then
/// what the commands after it show.
pub proof fn law_eligible_command_is_shown(
    cs: Seq<CommandView>,
    aged: Seq<bool>,
    entries: Seq<Seq<char>>,
    i: int,
)
    requires
        cs.len() == aged.len(),
        0 <= i < cs.len(),
        aged[i],
        !hides_spec(entries, cs[i].command),
    ensures
        visible(cs, aged, entries) == visible(cs.take(i), aged.take(i), entries) + seq![cs[i]]
            + visible(cs.skip(i + 1), aged.skip(i + 1), entries),
{
    assert(cs =~= cs.take(i) + (seq![cs[i]] + cs.skip(i + 1)));
    assert(aged =~= aged.take(i) + (seq![aged[i]] + aged.skip(i + 1)));
    law_shown_commands_split(seq![cs[i]], seq![aged[i]], cs.skip(i + 1), aged.skip(i + 1), entries);
    law_shown_commands_split(
        cs.take(i),
        aged.take(i),
        seq![cs[i]] + cs.skip(i + 1),
        seq![aged[i]] + aged.skip(i + 1),
        entries,
    );
    law_shown_single_command(cs[i], aged[i], entries);
    assert(visible(cs.take(i), aged.take(i), entries) + (seq![cs[i]] + visible(
        cs.skip(i + 1),
        aged.skip(i + 1),
        entries,
    )) =~= visible(cs.take(i), aged.take(i), entries) + seq![cs[i]] + visible(
        cs.skip(i + 1),
        aged.skip(i + 1),
        entries,
    ));
}

} // verus!
