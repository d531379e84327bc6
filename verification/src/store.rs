//! The segment store: one append-only log of chat segments per channel,
//! created lazily, plus the shared operational log.
//!
//! `Store` is the logical state of the persisted data.  Each operation states
//! exactly how it changes that state; the process around the library mirrors
//! every change onto the database engine.

use vstd::prelude::*;
use vstd::pervasive::unreached;
use crate::recent::{distinct_keys, group_by_keys, key_is, recent_keys, recent_rows,
    lemma_recent_rows_of_empty, sort_strings, vec_contains_string};
use crate::text::str_eq;

verus! {

/// One typed fragment of a group message, as stored: one row of a channel
/// table.
#[derive(Debug, PartialEq, Eq)]
pub struct GroupChatSegment {
    pub message_id: i32,
    pub time: String,
    pub sender_id: i64,
    pub sender_name: String,
    pub seg_type: String,
    pub content: String,
    pub interpret: String,
}

/// The mathematical value of a stored segment.
pub ghost struct SegView {
    pub message_id: int,
    pub time: Seq<char>,
    pub sender_id: int,
    pub sender_name: Seq<char>,
    pub seg_type: Seq<char>,
    pub content: Seq<char>,
    pub interpret: Seq<char>,
}

impl View for GroupChatSegment {
    type V = SegView;

    open spec fn view(&self) -> SegView {
        SegView {
            message_id: self.message_id as int,
            time: self.time@,
            sender_id: self.sender_id as int,
            sender_name: self.sender_name@,
            seg_type: self.seg_type@,
            content: self.content@,
            interpret: self.interpret@,
        }
    }
}

impl Clone for GroupChatSegment {
    fn clone(&self) -> (r: Self)
        ensures
            r@ == self@,
    {
        GroupChatSegment {
            message_id: self.message_id,
            time: self.time.clone(),
            sender_id: self.sender_id,
            sender_name: self.sender_name.clone(),
            seg_type: self.seg_type.clone(),
            content: self.content.clone(),
            interpret: self.interpret.clone(),
        }
    }
}

/// One row of the shared operational log.
#[derive(Debug, PartialEq, Eq)]
pub struct LogEntry {
    pub time: String,
    pub level: String,
    pub content: String,
}

/// The mathematical value of a log entry.
pub ghost struct LogView {
    pub time: Seq<char>,
    pub level: Seq<char>,
    pub content: Seq<char>,
}

impl View for LogEntry {
    type V = LogView;

    open spec fn view(&self) -> LogView {
        LogView { time: self.time@, level: self.level@, content: self.content@ }
    }
}

impl Clone for LogEntry {
    fn clone(&self) -> (r: Self)
        ensures
            r@ == self@,
    {
        LogEntry {
            time: self.time.clone(),
            level: self.level.clone(),
            content: self.content.clone(),
        }
    }
}

/// The views of a vector of segments, in order.
pub open spec fn seg_views(rows: Seq<GroupChatSegment>) -> Seq<SegView> {
    rows.map_values(|s: GroupChatSegment| s@)
}

/// The predicate selecting rows of one message.
pub open spec fn has_message_id(mid: int) -> spec_fn(SegView) -> bool {
    |s: SegView| s.message_id == mid
}

/// The timestamp of a stored segment, as the key recent history is ranked by.
pub open spec fn seg_time_fn() -> spec_fn(SegView) -> Seq<char> {
    |s: SegView| s.time
}

/// The timestamp of a log row.
pub open spec fn log_time_fn() -> spec_fn(LogView) -> Seq<char> {
    |e: LogView| e.time
}

/// The views of a vector of log entries, in order.
pub open spec fn log_views(rows: Seq<LogEntry>) -> Seq<LogView> {
    rows.map_values(|e: LogEntry| e@)
}

struct ChannelLog {
    channel_id: i64,
    rows: Vec<GroupChatSegment>,
}

/// The rows a table map holds for a channel: empty when the channel has no
/// table yet.
pub open spec fn table_rows(m: Map<int, Seq<SegView>>, id: int) -> Seq<SegView> {
    if m.contains_key(id) {
        m[id]
    } else {
        Seq::empty()
    }
}

/// A table map after a create-if-absent of the table for `id`.
pub open spec fn with_table(m: Map<int, Seq<SegView>>, id: int) -> Map<int, Seq<SegView>> {
    if m.contains_key(id) {
        m
    } else {
        m.insert(id, Seq::empty())
    }
}

spec fn chan_map(cs: Seq<ChannelLog>) -> Map<int, Seq<SegView>>
    decreases cs.len(),
{
    if cs.len() == 0 {
        Map::empty()
    } else {
        chan_map(cs.drop_last()).insert(
            cs.last().channel_id as int,
            seg_views(cs.last().rows@),
        )
    }
}

spec fn ids_distinct(cs: Seq<ChannelLog>) -> bool {
    forall|i: int, j: int|
        0 <= i < j < cs.len() ==> #[trigger] cs[i].channel_id != #[trigger] cs[j].channel_id
}

proof fn lemma_chan_map_key_exists(cs: Seq<ChannelLog>, id: int)
    ensures
        chan_map(cs).contains_key(id) <==> exists|i: int|
            0 <= i < cs.len() && #[trigger] cs[i].channel_id as int == id,
    decreases cs.len(),
{
    if cs.len() > 0 {
        lemma_chan_map_key_exists(cs.drop_last(), id);
        if cs.last().channel_id as int == id {
            assert(cs[cs.len() - 1].channel_id as int == id);
        } else {
            if chan_map(cs).contains_key(id) {
                let i = choose|i: int|
                    0 <= i < cs.drop_last().len() && #[trigger] cs.drop_last()[i].channel_id as int
                        == id;
                assert(cs[i].channel_id as int == id);
            }
            if exists|i: int| 0 <= i < cs.len() && #[trigger] cs[i].channel_id as int == id {
                let i = choose|i: int|
                    0 <= i < cs.len() && #[trigger] cs[i].channel_id as int == id;
                assert(cs.drop_last()[i].channel_id as int == id);
            }
        }
    }
}

proof fn lemma_chan_map_index(cs: Seq<ChannelLog>, i: int)
    requires
        ids_distinct(cs),
        0 <= i < cs.len(),
    ensures
        chan_map(cs).contains_key(cs[i].channel_id as int),
        chan_map(cs)[cs[i].channel_id as int] == seg_views(cs[i].rows@),
    decreases cs.len(),
{
    if i == cs.len() - 1 {
    } else {
        assert(cs.drop_last()[i] == cs[i]);
        lemma_chan_map_index(cs.drop_last(), i);
        assert(cs[cs.len() - 1].channel_id != cs[i].channel_id);
    }
}

proof fn lemma_chan_map_update(cs: Seq<ChannelLog>, i: int, c: ChannelLog)
    requires
        ids_distinct(cs),
        0 <= i < cs.len(),
        c.channel_id == cs[i].channel_id,
    ensures
        chan_map(cs.update(i, c)) =~= chan_map(cs).insert(
            c.channel_id as int,
            seg_views(c.rows@),
        ),
    decreases cs.len(),
{
    let cs2 = cs.update(i, c);
    if i == cs.len() - 1 {
        assert(cs2.drop_last() =~= cs.drop_last());
        assert(cs2.last() == c);
    } else {
        assert(cs2.last() == cs.last());
        assert(cs2.drop_last() =~= cs.drop_last().update(i, c));
        lemma_chan_map_update(cs.drop_last(), i, c);
        assert(cs.last().channel_id != c.channel_id);
    }
}

/// The logical state of the storage backend: the per-channel segment tables
/// and the shared operational log.
pub struct Store {
    channels: Vec<ChannelLog>,
    log: Vec<LogEntry>,
}

impl Store {
    /// The channel tables: each existing channel id mapped to its rows, in
    /// storage order.
    pub closed spec fn tables(&self) -> Map<int, Seq<SegView>> {
        chan_map(self.channels@)
    }

    /// The operational log, in append order.
    pub closed spec fn log_view(&self) -> Seq<LogView> {
        self.log@.map_values(|e: LogEntry| e@)
    }

    /// Internal well-formedness: one table per channel id.
    pub closed spec fn wf(&self) -> bool {
        ids_distinct(self.channels@)
    }

    /// An empty store: no channel tables, no log rows.
    pub fn new() -> (r: Store)
        ensures
            r.wf(),
            r.tables() == Map::<int, Seq<SegView>>::empty(),
            r.log_view() == Seq::<LogView>::empty(),
    {
        let r = Store { channels: Vec::new(), log: Vec::new() };
        proof {
            assert(r.log@.map_values(|e: LogEntry| e@) =~= Seq::<LogView>::empty());
        }
        r
    }

    fn find_channel(&self, channel_id: i64) -> (r: Option<usize>)
        requires
            self.wf(),
        ensures
            match r {
                Some(i) => {
                    &&& i < self.channels@.len()
                    &&& self.channels@[i as int].channel_id == channel_id
                    &&& self.tables().contains_key(channel_id as int)
                    &&& self.tables()[channel_id as int] == seg_views(
                        self.channels@[i as int].rows@,
                    )
                },
                None => !self.tables().contains_key(channel_id as int),
            },
    {
        let n = self.channels.len();
        let mut i: usize = 0;
        while i < n
            invariant
                self.wf(),
                n == self.channels@.len(),
                i <= n,
                forall|j: int| 0 <= j < i ==> #[trigger] self.channels@[j].channel_id != channel_id,
            decreases n - i,
        {
            if self.channels[i].channel_id == channel_id {
                proof {
                    lemma_chan_map_index(self.channels@, i as int);
                }
                return Some(i);
            }
            i = i + 1;
        }
        proof {
            lemma_chan_map_key_exists(self.channels@, channel_id as int);
        }
        None
    }

    /// Creates the channel's table when it does not exist yet; does nothing
    /// when it does.  Safe to repeat: one logical table per channel, always.
    pub fn ensure_channel_table(&mut self, channel_id: i64)
        requires
            old(self).wf(),
        ensures
            final(self).wf(),
            final(self).tables() == with_table(old(self).tables(), channel_id as int),
            final(self).log_view() == old(self).log_view(),
    {
        match self.find_channel(channel_id) {
            Some(_) => {
            }
            None => {
                proof {
                    lemma_chan_map_key_exists(self.channels@, channel_id as int);
                }
                let c = ChannelLog { channel_id, rows: Vec::new() };
                proof {
                    assert(seg_views(c.rows@) =~= Seq::<SegView>::empty());
                }
                self.channels.push(c);
                proof {
                    assert(self.channels@.drop_last() =~= old(self).channels@);
                }
            }
        }
    }

    /// Appends one segment as one new row of the channel's table, creating
    /// the table first when the channel is new.  Nothing else changes.
    pub fn insert(&mut self, channel_id: i64, seg: GroupChatSegment)
        requires
            old(self).wf(),
        ensures
            final(self).wf(),
            final(self).tables() == old(self).tables().insert(
                channel_id as int,
                table_rows(old(self).tables(), channel_id as int) + seq![seg@],
            ),
            final(self).log_view() == old(self).log_view(),
    {
        let ghost t0 = self.tables();
        self.ensure_channel_table(channel_id);
        let idx = match self.find_channel(channel_id) {
            Some(i) => i,
            None => unreached(),
        };
        let ghost cs1 = self.channels@;
        let mut c = self.channels.remove(idx);
        c.rows.push(seg);
        self.channels.insert(idx, c);
        proof {
            assert(self.channels@ =~= cs1.update(idx as int, self.channels@[idx as int]));
            let c2 = self.channels@[idx as int];
            assert(c2.channel_id == channel_id);
            assert(seg_views(c2.rows@) =~= seg_views(cs1[idx as int].rows@) + seq![seg@]);
            lemma_chan_map_update(cs1, idx as int, c2);
            assert(seg_views(cs1[idx as int].rows@) == table_rows(t0, channel_id as int)) by {
                assert(chan_map(cs1) == with_table(t0, channel_id as int));
            }
            assert(final(self).tables() =~= old(self).tables().insert(
                channel_id as int,
                table_rows(old(self).tables(), channel_id as int) + seq![seg@],
            ));
        }
    }

    /// Appends each given segment in order to the channel's table: the
    /// fan-out of one decomposed message into rows.
    pub fn store_segments(&mut self, channel_id: i64, segs: Vec<GroupChatSegment>)
        requires
            old(self).wf(),
        ensures
            final(self).wf(),
            final(self).tables() == old(self).tables().insert(
                channel_id as int,
                table_rows(old(self).tables(), channel_id as int) + seg_views(segs@),
            ),
            final(self).log_view() == old(self).log_view(),
    {
        let ghost t0 = self.tables();
        let ghost all = segs@;
        self.ensure_channel_table(channel_id);
        proof {
            assert(self.tables() =~= t0.insert(
                channel_id as int,
                table_rows(t0, channel_id as int) + seg_views(all.take(0)),
            )) by {
                assert(seg_views(all.take(0)) =~= Seq::<SegView>::empty());
            }
        }
        let n = segs.len();
        let mut i: usize = 0;
        let mut rest = segs;
        while i < n
            invariant
                self.wf(),
                n == all.len(),
                i <= n,
                rest@ =~= all.skip(i as int),
                self.tables() =~= t0.insert(
                    channel_id as int,
                    table_rows(t0, channel_id as int) + seg_views(all.take(i as int)),
                ),
                self.log_view() == old(self).log_view(),
            decreases n - i,
        {
            let seg = rest.remove(0);
            proof {
                assert(seg@ == all[i as int]@);
                assert(rest@ =~= all.skip(i + 1));
            }
            let ghost t_before = self.tables();
            self.insert(channel_id, seg);
            proof {
                let base = table_rows(t0, channel_id as int);
                assert(table_rows(t_before, channel_id as int) == base + seg_views(
                    all.take(i as int),
                ));
                assert(seg_views(all.take(i + 1)) =~= seg_views(all.take(i as int)).push(
                    all[i as int]@,
                ));
                assert(base + seg_views(all.take(i as int)) + seq![all[i as int]@] =~= base
                    + seg_views(all.take(i + 1)));
                assert(self.tables() =~= t0.insert(
                    channel_id as int,
                    base + seg_views(all.take(i + 1)),
                ));
            }
            i = i + 1;
        }
        proof {
            assert(all.take(n as int) =~= all);
        }
    }

    /// All rows of the channel whose `message_id` equals the given one, in
    /// storage order.
    pub fn find_by_message_id(&self, channel_id: i64, message_id: i32) -> (r: Vec<
        GroupChatSegment,
    >)
        requires
            self.wf(),
        ensures
            seg_views(r@) == table_rows(self.tables(), channel_id as int).filter(
                has_message_id(message_id as int),
            ),
    {
        let pred = Ghost(has_message_id(message_id as int));
        let mut out: Vec<GroupChatSegment> = Vec::new();
        match self.find_channel(channel_id) {
            None => {
                proof {
                    assert(table_rows(self.tables(), channel_id as int).filter(pred@)
                        =~= Seq::<SegView>::empty());
                    assert(seg_views(out@) =~= Seq::<SegView>::empty());
                }
                out
            }
            Some(idx) => {
                let rows = &self.channels[idx].rows;
                let n = rows.len();
                let ghost rv = seg_views(rows@);
                proof {
                    assert(rv.take(0) =~= Seq::<SegView>::empty());
                    assert(rv.take(0).filter(pred@) =~= Seq::<SegView>::empty());
                    assert(seg_views(out@) =~= Seq::<SegView>::empty());
                }
                let mut i: usize = 0;
                while i < n
                    invariant
                        n == rows@.len(),
                        rv == seg_views(rows@),
                        pred@ == has_message_id(message_id as int),
                        i <= n,
                        seg_views(out@) =~= rv.take(i as int).filter(pred@),
                    decreases n - i,
                {
                    proof {
                        assert(rv[i as int] == rows@[i as int]@);
                        assert(rv.take(i + 1) =~= rv.take(i as int).push(rv[i as int]));
                        lemma_filter_push(rv.take(i as int), rv[i as int], pred@);
                    }
                    if rows[i].message_id == message_id {
                        let seg = rows[i].clone();
                        let ghost out0 = seg_views(out@);
                        out.push(seg);
                        proof {
                            assert(pred@(rv[i as int]));
                            assert(seg_views(out@) =~= out0.push(rv[i as int]));
                            assert(seg_views(out@) =~= rv.take(i + 1).filter(pred@));
                        }
                    } else {
                        proof {
                            assert(!pred@(rv[i as int]));
                            assert(seg_views(out@) =~= rv.take(i + 1).filter(pred@));
                        }
                    }
                    i = i + 1;
                }
                proof {
                    assert(rv.take(n as int) =~= rv);
                }
                out
            }
        }
    }

    /// Every row of the channel whose timestamp ranks among the `n` most
    /// recent distinct timestamps, in ascending time order; rows that share a
    /// timestamp stay complete and in storage order.  A channel without a
    /// table has an empty history.
    pub fn load_recent(&self, channel_id: i64, n: usize) -> (r: Vec<GroupChatSegment>)
        requires
            self.wf(),
        ensures
            seg_views(r@) == recent_rows(
                table_rows(self.tables(), channel_id as int),
                seg_time_fn(),
                n as int,
            ),
    {
        match self.find_channel(channel_id) {
            None => {
                proof {
                    lemma_recent_rows_of_empty(seg_time_fn(), n as int);
                }
                Vec::new()
            }
            Some(idx) => recent_of_rows(&self.channels[idx].rows, n),
        }
    }

    /// Every log row whose timestamp ranks among the `n` most recent distinct
    /// log timestamps, in ascending time order.
    pub fn recent_log(&self, n: usize) -> (r: Vec<LogEntry>)
        ensures
            log_views(r@) == recent_rows(self.log_view(), log_time_fn(), n as int),
    {
        recent_of_logs(&self.log, n)
    }

    /// The CSV export of the channel's recent history: the header row, then
    /// one line per selected row.  No rows selected means the header alone.
    pub fn dump_history_csv(&self, channel_id: i64, n: usize) -> (r: String)
        requires
            self.wf(),
        ensures
            r@ == crate::csv::history_csv(
                recent_rows(table_rows(self.tables(), channel_id as int), seg_time_fn(), n as int),
            ),
    {
        let rows = self.load_recent(channel_id, n);
        crate::csv::history_csv_text(&rows)
    }

    /// The CSV export of the recent operational log.
    pub fn dump_log_csv(&self, n: usize) -> (r: String)
        ensures
            r@ == crate::csv::log_csv(recent_rows(self.log_view(), log_time_fn(), n as int)),
    {
        let rows = self.recent_log(n);
        crate::csv::log_csv_text(&rows)
    }

    /// Appends one row to the operational log.  The log only ever grows; the
    /// segment tables are untouched.
    pub fn write_bot_log(&mut self, time: String, level: String, content: String)
        requires
            old(self).wf(),
        ensures
            final(self).wf(),
            final(self).tables() == old(self).tables(),
            final(self).log_view() == old(self).log_view() + seq![
                LogView { time: time@, level: level@, content: content@ },
            ],
    {
        let e = LogEntry { time, level, content };
        let ghost ev = e@;
        self.log.push(e);
        proof {
            assert(self.log@.map_values(|x: LogEntry| x@) =~= old(self).log@.map_values(
                |x: LogEntry| x@,
            ) + seq![ev]);
        }
    }
}

/// Recent history is a time-ordered selection of at most `n` distinct
/// timestamps: it comes sorted ascending by time, spans no more than `n`
/// distinct timestamps, and holds exactly the rows whose timestamp ranks
/// among the `n` most recent distinct ones — never a partial event.
pub proof fn lemma_load_recent_shape(table: Seq<SegView>, n: int)
    requires
        n >= 0,
    ensures
        crate::recent::sorted_by_key(recent_rows(table, seg_time_fn(), n), seg_time_fn()),
        distinct_keys(recent_rows(table, seg_time_fn(), n), seg_time_fn()).len() <= n,
        recent_rows(table, seg_time_fn(), n).to_multiset() == table.filter(
            crate::recent::recent_pred(table, seg_time_fn(), n),
        ).to_multiset(),
{
    crate::recent::lemma_recent_rows_sorted(table, seg_time_fn(), n);
    crate::recent::lemma_recent_rows_span(table, seg_time_fn(), n);
    crate::recent::lemma_recent_rows_complete(table, seg_time_fn(), n);
}

/// A message fans out into rows sharing one timestamp.  When that timestamp
/// is the latest the table holds, loading the single most recent event
/// returns every one of those rows, in storage order — never a subset.
pub proof fn lemma_load_recent_one_keeps_message(table: Seq<SegView>, t: Seq<char>)
    requires
        exists|i: int| 0 <= i < table.len() && (#[trigger] table[i]).time == t,
        forall|i: int|
            0 <= i < table.len() ==> crate::text::lex_le((#[trigger] table[i]).time, t),
    ensures
        recent_rows(table, seg_time_fn(), 1) == table.filter(key_is(seg_time_fn(), t)),
{
    assert forall|i: int| 0 <= i < table.len() implies crate::text::lex_le(
        seg_time_fn()(#[trigger] table[i]),
        t,
    ) by {
        assert(seg_time_fn()(table[i]) == table[i].time);
    }
    let i = choose|i: int| 0 <= i < table.len() && (#[trigger] table[i]).time == t;
    assert(seg_time_fn()(table[i]) == t);
    crate::recent::lemma_latest_rows_complete(table, seg_time_fn(), t);
}

/// Creating a channel's table is idempotent: however many first writers ask
/// for it, in whatever order, exactly one logical table results, and none of
/// them sees an error.
pub proof fn lemma_ensure_channel_table_idempotent(m: Map<int, Seq<SegView>>, id: int)
    ensures
        with_table(with_table(m, id), id) == with_table(m, id),
        with_table(m, id).contains_key(id),
        m.contains_key(id) ==> with_table(m, id) == m,
        table_rows(with_table(m, id), id) == table_rows(m, id),
{
}

fn recent_of_rows(rows: &Vec<GroupChatSegment>, n: usize) -> (r: Vec<GroupChatSegment>)
    ensures
        seg_views(r@) == recent_rows(seg_views(rows@), seg_time_fn(), n as int),
{
    let ghost rv = seg_views(rows@);
    let ghost key = seg_time_fn();
    let m = rows.len();
    let mut times: Vec<String> = Vec::new();
    proof {
        assert(rv.take(0) =~= Seq::<SegView>::empty());
        assert(distinct_keys(rv.take(0), key) =~= Seq::<Seq<char>>::empty());
        assert(times@.map_values(|x: String| x@) =~= Seq::<Seq<char>>::empty());
    }
    let mut i: usize = 0;
    while i < m
        invariant
            m == rows@.len(),
            i <= m,
            rv == seg_views(rows@),
            key == seg_time_fn(),
            times@.map_values(|x: String| x@) =~= distinct_keys(rv.take(i as int), key),
        decreases m - i,
    {
        proof {
            assert(rv.take(i + 1).drop_last() =~= rv.take(i as int));
            assert(rv.take(i + 1).last() == rv[i as int]);
            assert(rv[i as int] == rows@[i as int]@);
            assert(key(rv[i as int]) == rows@[i as int].time@);
        }
        if !vec_contains_string(&times, rows[i].time.as_str()) {
            let ghost tv0 = times@.map_values(|x: String| x@);
            let t = rows[i].time.clone();
            times.push(t);
            proof {
                assert(times@.map_values(|x: String| x@) =~= tv0.push(rows@[i as int].time@));
            }
        }
        i = i + 1;
    }
    proof {
        assert(rv.take(m as int) =~= rv);
    }
    let sorted = sort_strings(times);
    let ghost sv = sorted@.map_values(|x: String| x@);
    let slen = sorted.len();
    let start: usize = if slen <= n {
        0
    } else {
        slen - n
    };
    let ghost keep = recent_keys(rv, key, n as int);
    proof {
        assert(sv.len() == slen);
        assert(keep =~= sv.skip(start as int));
    }
    let mut out: Vec<GroupChatSegment> = Vec::new();
    proof {
        assert(keep.take(0) =~= Seq::<Seq<char>>::empty());
        assert(group_by_keys(rv, key, keep.take(0)) =~= Seq::<SegView>::empty());
        assert(seg_views(out@) =~= Seq::<SegView>::empty());
    }
    let mut j = start;
    while j < slen
        invariant
            m == rows@.len(),
            rv == seg_views(rows@),
            key == seg_time_fn(),
            slen == sorted@.len(),
            start <= j <= slen,
            sv == sorted@.map_values(|x: String| x@),
            keep =~= sv.skip(start as int),
            seg_views(out@) =~= group_by_keys(rv, key, keep.take(j - start)),
        decreases slen - j,
    {
        let ghost tv = sorted@[j as int]@;
        let ghost p = key_is(key, tv);
        proof {
            assert(sv[j as int] == tv);
            assert(keep[j - start] == tv);
            assert(rv.take(0) =~= Seq::<SegView>::empty());
            assert(rv.take(0).filter(p) =~= Seq::<SegView>::empty()) by {
                reveal(Seq::filter);
            }
        }
        let mut ii: usize = 0;
        while ii < m
            invariant
                m == rows@.len(),
                ii <= m,
                rv == seg_views(rows@),
                key == seg_time_fn(),
                j < slen,
                slen == sorted@.len(),
                start <= j,
                tv == sorted@[j as int]@,
                p == key_is(key, tv),
                keep =~= sv.skip(start as int),
                sv == sorted@.map_values(|x: String| x@),
                seg_views(out@) =~= group_by_keys(rv, key, keep.take(j - start)) + rv.take(
                    ii as int,
                ).filter(p),
            decreases m - ii,
        {
            proof {
                assert(rv[ii as int] == rows@[ii as int]@);
                assert(rv.take(ii + 1) =~= rv.take(ii as int).push(rv[ii as int]));
                lemma_filter_push(rv.take(ii as int), rv[ii as int], p);
                assert(key(rv[ii as int]) == rows@[ii as int].time@);
                assert(p(rv[ii as int]) == (rows@[ii as int].time@ == tv));
            }
            if str_eq(rows[ii].time.as_str(), sorted[j].as_str()) {
                let ghost out0 = seg_views(out@);
                let seg = rows[ii].clone();
                out.push(seg);
                proof {
                    assert(seg_views(out@) =~= out0.push(rv[ii as int]));
                }
            }
            ii = ii + 1;
        }
        proof {
            assert(rv.take(m as int) =~= rv);
            assert(keep.take(j - start + 1).drop_last() =~= keep.take(j - start));
            assert(keep.take(j - start + 1).last() == keep[j - start]);
            assert(group_by_keys(rv, key, keep.take(j - start + 1)) == group_by_keys(
                rv,
                key,
                keep.take(j - start),
            ) + rv.filter(key_is(key, keep[j - start])));
            assert(key_is(key, keep[j - start]) == p);
        }
        j = j + 1;
    }
    proof {
        assert(keep.take((slen - start) as int) =~= keep);
    }
    out
}

fn recent_of_logs(rows: &Vec<LogEntry>, n: usize) -> (r: Vec<LogEntry>)
    ensures
        log_views(r@) == recent_rows(log_views(rows@), log_time_fn(), n as int),
{
    let ghost rv = log_views(rows@);
    let ghost key = log_time_fn();
    let m = rows.len();
    let mut times: Vec<String> = Vec::new();
    proof {
        assert(rv.take(0) =~= Seq::<LogView>::empty());
        assert(distinct_keys(rv.take(0), key) =~= Seq::<Seq<char>>::empty());
        assert(times@.map_values(|x: String| x@) =~= Seq::<Seq<char>>::empty());
    }
    let mut i: usize = 0;
    while i < m
        invariant
            m == rows@.len(),
            i <= m,
            rv == log_views(rows@),
            key == log_time_fn(),
            times@.map_values(|x: String| x@) =~= distinct_keys(rv.take(i as int), key),
        decreases m - i,
    {
        proof {
            assert(rv.take(i + 1).drop_last() =~= rv.take(i as int));
            assert(rv.take(i + 1).last() == rv[i as int]);
            assert(rv[i as int] == rows@[i as int]@);
            assert(key(rv[i as int]) == rows@[i as int].time@);
        }
        if !vec_contains_string(&times, rows[i].time.as_str()) {
            let ghost tv0 = times@.map_values(|x: String| x@);
            let t = rows[i].time.clone();
            times.push(t);
            proof {
                assert(times@.map_values(|x: String| x@) =~= tv0.push(rows@[i as int].time@));
            }
        }
        i = i + 1;
    }
    proof {
        assert(rv.take(m as int) =~= rv);
    }
    let sorted = sort_strings(times);
    let ghost sv = sorted@.map_values(|x: String| x@);
    let slen = sorted.len();
    let start: usize = if slen <= n {
        0
    } else {
        slen - n
    };
    let ghost keep = recent_keys(rv, key, n as int);
    proof {
        assert(sv.len() == slen);
        assert(keep =~= sv.skip(start as int));
    }
    let mut out: Vec<LogEntry> = Vec::new();
    proof {
        assert(keep.take(0) =~= Seq::<Seq<char>>::empty());
        assert(group_by_keys(rv, key, keep.take(0)) =~= Seq::<LogView>::empty());
        assert(log_views(out@) =~= Seq::<LogView>::empty());
    }
    let mut j = start;
    while j < slen
        invariant
            m == rows@.len(),
            rv == log_views(rows@),
            key == log_time_fn(),
            slen == sorted@.len(),
            start <= j <= slen,
            sv == sorted@.map_values(|x: String| x@),
            keep =~= sv.skip(start as int),
            log_views(out@) =~= group_by_keys(rv, key, keep.take(j - start)),
        decreases slen - j,
    {
        let ghost tv = sorted@[j as int]@;
        let ghost p = key_is(key, tv);
        proof {
            assert(sv[j as int] == tv);
            assert(keep[j - start] == tv);
            assert(rv.take(0) =~= Seq::<LogView>::empty());
            assert(rv.take(0).filter(p) =~= Seq::<LogView>::empty()) by {
                reveal(Seq::filter);
            }
        }
        let mut ii: usize = 0;
        while ii < m
            invariant
                m == rows@.len(),
                ii <= m,
                rv == log_views(rows@),
                key == log_time_fn(),
                j < slen,
                slen == sorted@.len(),
                start <= j,
                tv == sorted@[j as int]@,
                p == key_is(key, tv),
                keep =~= sv.skip(start as int),
                sv == sorted@.map_values(|x: String| x@),
                log_views(out@) =~= group_by_keys(rv, key, keep.take(j - start)) + rv.take(
                    ii as int,
                ).filter(p),
            decreases m - ii,
        {
            proof {
                assert(rv[ii as int] == rows@[ii as int]@);
                assert(rv.take(ii + 1) =~= rv.take(ii as int).push(rv[ii as int]));
                lemma_filter_push(rv.take(ii as int), rv[ii as int], p);
                assert(key(rv[ii as int]) == rows@[ii as int].time@);
                assert(p(rv[ii as int]) == (rows@[ii as int].time@ == tv));
            }
            if str_eq(rows[ii].time.as_str(), sorted[j].as_str()) {
                let ghost out0 = log_views(out@);
                let e = rows[ii].clone();
                out.push(e);
                proof {
                    assert(log_views(out@) =~= out0.push(rv[ii as int]));
                }
            }
            ii = ii + 1;
        }
        proof {
            assert(rv.take(m as int) =~= rv);
            assert(keep.take(j - start + 1).drop_last() =~= keep.take(j - start));
            assert(keep.take(j - start + 1).last() == keep[j - start]);
            assert(group_by_keys(rv, key, keep.take(j - start + 1)) == group_by_keys(
                rv,
                key,
                keep.take(j - start),
            ) + rv.filter(key_is(key, keep[j - start])));
            assert(key_is(key, keep[j - start]) == p);
        }
        j = j + 1;
    }
    proof {
        assert(keep.take((slen - start) as int) =~= keep);
    }
    out
}

/// Filtering a sequence extended by one element keeps the earlier selection
/// and appends the element exactly when it satisfies the predicate.
pub proof fn lemma_filter_push<A>(s: Seq<A>, x: A, p: spec_fn(A) -> bool)
    ensures
        s.push(x).filter(p) == if p(x) {
            s.filter(p).push(x)
        } else {
            s.filter(p)
        },
{
    reveal(Seq::filter);
    assert(s.push(x).drop_last() =~= s);
    assert(s.push(x).last() == x);
    assert(s.push(x).len() == s.len() + 1);
}

} // verus!
