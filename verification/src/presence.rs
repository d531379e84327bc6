//! The presence watcher: a four-state machine per watched room, driven by
//! one liveness observation per tick, emitting at most one notification per
//! observed edge and never one on the first tick after a restart.

use vstd::prelude::*;
use vstd::string::StringExecFns;
use crate::text::dec_str_nat;

verus! {

/// The presence state of one watched room.  `Init` is the state after every
/// process start: the real-world state before the restart is unknown, so the
/// first observation never notifies.  `Trap` is a defensive sentinel,
/// reachable only through a corrupted encoding, never by a transition.
#[derive(Debug, PartialEq, Eq, Structural, Clone, Copy)]
pub enum LiveSwitch {
    On,
    Off,
    Init,
    Trap,
}

/// What one tick asks of the surrounding process.
#[derive(Debug, PartialEq, Eq, Structural, Clone, Copy)]
pub enum TickEffect {
    /// Stable state, or first observation: nothing to send.
    Silent,
    /// The room went live: send the online notification.
    NotifyLive,
    /// The room went offline: send the offline notification.
    NotifyOffline,
    /// The room does not exist: log and skip the tick.
    RoomMissing,
    /// The state encoding is corrupted: log every tick, never notify.
    TrapError,
}

/// The byte a presence state is stored as.
pub open spec fn switch_code(s: LiveSwitch) -> u8 {
    match s {
        LiveSwitch::Off => 0,
        LiveSwitch::On => 1,
        LiveSwitch::Init => 2,
        LiveSwitch::Trap => 3,
    }
}

/// The presence state a stored byte decodes to; anything unknown is the
/// trap sentinel.
pub open spec fn switch_of_code(v: u8) -> LiveSwitch {
    if v == 0 {
        LiveSwitch::Off
    } else if v == 1 {
        LiveSwitch::On
    } else if v == 2 {
        LiveSwitch::Init
    } else {
        LiveSwitch::Trap
    }
}

/// Encoding a state and decoding it gives the state back.
pub proof fn lemma_switch_roundtrip(s: LiveSwitch)
    ensures
        switch_of_code(switch_code(s)) == s,
{
}

/// The state after one successful observation.
pub open spec fn switch_after(s: LiveSwitch, is_live: bool) -> LiveSwitch {
    match s {
        LiveSwitch::Trap => LiveSwitch::Trap,
        _ => if is_live {
            LiveSwitch::On
        } else {
            LiveSwitch::Off
        },
    }
}

/// What one successful observation asks of the surrounding process.
pub open spec fn effect_of(s: LiveSwitch, is_live: bool) -> TickEffect {
    match s {
        LiveSwitch::On => if is_live {
            TickEffect::Silent
        } else {
            TickEffect::NotifyOffline
        },
        LiveSwitch::Off => if is_live {
            TickEffect::NotifyLive
        } else {
            TickEffect::Silent
        },
        LiveSwitch::Init => TickEffect::Silent,
        LiveSwitch::Trap => TickEffect::TrapError,
    }
}

/// A notification is asked for exactly on an edge between the two settled
/// states: never on a stable state, never from the initial state, and never
/// from the trap.
pub proof fn lemma_notification_edge_only(s: LiveSwitch, is_live: bool)
    ensures
        (effect_of(s, is_live) == TickEffect::NotifyLive || effect_of(s, is_live)
            == TickEffect::NotifyOffline) <==> ((s == LiveSwitch::On || s == LiveSwitch::Off)
            && switch_after(s, is_live) != s),
        s == LiveSwitch::Init ==> effect_of(s, is_live) == TickEffect::Silent,
        effect_of(s, is_live) == TickEffect::NotifyLive ==> s == LiveSwitch::Off && is_live
            && switch_after(s, is_live) == LiveSwitch::On,
        effect_of(s, is_live) == TickEffect::NotifyOffline ==> s == LiveSwitch::On && !is_live
            && switch_after(s, is_live) == LiveSwitch::Off,
        effect_of(s, is_live) == TickEffect::Silent && s != LiveSwitch::Init ==> switch_after(
            s,
            is_live,
        ) == s,
{
}

/// One room's live transition: the next state and what to do.
pub fn live_transition(s: LiveSwitch, is_live: bool) -> (r: (LiveSwitch, TickEffect))
    ensures
        r.0 == switch_after(s, is_live),
        r.1 == effect_of(s, is_live),
{
    match s {
        LiveSwitch::On => if is_live {
            (LiveSwitch::On, TickEffect::Silent)
        } else {
            (LiveSwitch::Off, TickEffect::NotifyOffline)
        },
        LiveSwitch::Off => if is_live {
            (LiveSwitch::On, TickEffect::NotifyLive)
        } else {
            (LiveSwitch::Off, TickEffect::Silent)
        },
        LiveSwitch::Init => if is_live {
            (LiveSwitch::On, TickEffect::Silent)
        } else {
            (LiveSwitch::Off, TickEffect::Silent)
        },
        LiveSwitch::Trap => (LiveSwitch::Trap, TickEffect::TrapError),
    }
}

/// One watched room's configuration and its in-memory presence state.
pub struct LiveSetting {
    pub switch: u8,
    pub room_id: String,
    pub online_msg: String,
    pub offline_msg: String,
    pub query_message: String,
    pub poll_interval_sec: u64,
}

impl LiveSetting {
    /// The room's current presence state.
    pub open spec fn switch_state(&self) -> LiveSwitch {
        switch_of_code(self.switch)
    }

    /// A freshly configured room: its state is `Init`, so the first
    /// observation only settles the state and never notifies.
    pub fn new(
        room_id: String,
        online_msg: String,
        offline_msg: String,
        query_message: String,
        poll_interval_sec: u64,
    ) -> (r: LiveSetting)
        ensures
            r.switch == switch_code(LiveSwitch::Init),
            r.switch_state() == LiveSwitch::Init,
            r.room_id@ == room_id@,
            r.online_msg@ == online_msg@,
            r.offline_msg@ == offline_msg@,
            r.query_message@ == query_message@,
            r.poll_interval_sec == poll_interval_sec,
    {
        LiveSetting {
            switch: 2,
            room_id,
            online_msg,
            offline_msg,
            query_message,
            poll_interval_sec,
        }
    }

    /// The room's current presence state.
    pub fn get_switch(&self) -> (r: LiveSwitch)
        ensures
            r == self.switch_state(),
    {
        if self.switch == 0 {
            LiveSwitch::Off
        } else if self.switch == 1 {
            LiveSwitch::On
        } else if self.switch == 2 {
            LiveSwitch::Init
        } else {
            LiveSwitch::Trap
        }
    }

    /// Stores a presence state, as exactly its encoding byte; everything
    /// else is untouched.
    pub fn set_switch(&mut self, switch: LiveSwitch)
        ensures
            final(self).switch == switch_code(switch),
            final(self).switch_state() == switch,
            final(self).room_id == old(self).room_id,
            final(self).online_msg == old(self).online_msg,
            final(self).offline_msg == old(self).offline_msg,
            final(self).query_message == old(self).query_message,
            final(self).poll_interval_sec == old(self).poll_interval_sec,
    {
        self.switch = match switch {
            LiveSwitch::Off => 0,
            LiveSwitch::On => 1,
            LiveSwitch::Init => 2,
            LiveSwitch::Trap => 3,
        };
    }

    /// One poll tick.  A missing room leaves the state untouched and asks
    /// only for a log line; a successful observation applies the transition
    /// table and asks for at most one notification.
    pub fn tick(&mut self, exists: bool, is_live: bool) -> (eff: TickEffect)
        ensures
            final(self).switch == (if exists {
                switch_code(switch_after(old(self).switch_state(), is_live))
            } else {
                old(self).switch
            }),
            final(self).switch_state() == (if exists {
                switch_after(old(self).switch_state(), is_live)
            } else {
                old(self).switch_state()
            }),
            eff == (if exists {
                effect_of(old(self).switch_state(), is_live)
            } else {
                TickEffect::RoomMissing
            }),
            final(self).room_id == old(self).room_id,
            final(self).online_msg == old(self).online_msg,
            final(self).offline_msg == old(self).offline_msg,
            final(self).query_message == old(self).query_message,
            final(self).poll_interval_sec == old(self).poll_interval_sec,
    {
        if !exists {
            return TickEffect::RoomMissing;
        }
        let (next, eff) = live_transition(self.get_switch(), is_live);
        self.set_switch(next);
        eff
    }
}

/// One watched room's liveness, as the liveness collaborator reports it.
#[derive(Debug, PartialEq, Eq)]
pub struct LiveData {
    pub is_streaming: bool,
    pub online: usize,
    pub attention: usize,
    pub keyframe: String,
    pub user_cover: String,
    pub area_name: String,
    pub description: String,
    pub title: String,
}

/// A liveness query's answer: whether the room exists, and its data.
#[derive(Debug, PartialEq, Eq)]
pub struct LiveRoom {
    pub exist: bool,
    pub data: LiveData,
}

/// Whether a liveness answer's status code means the room exists.
pub fn exists_from_code(code: i32) -> (r: bool)
    ensures
        r == (code == 0),
{
    code == 0
}

/// Whether a liveness answer's status value means the room is streaming.
pub fn streaming_from_status(status: i32) -> (r: bool)
    ensures
        r == (status == 1),
{
    status == 1
}

/// The summary text of a room, one labelled line per field.
pub open spec fn room_summary(d: &LiveData) -> Seq<char> {
    "分区:"@ + d.area_name@ + "\n标题:"@ + d.title@ + "\n简介:"@ + d.description@ + "\n热度:"@
        + dec_str_nat(d.online as nat) + ", 关注:"@ + dec_str_nat(d.attention as nat) + "\n"@
}

impl LiveRoom {
    /// The public page of a room.
    pub fn url_from_id(room_id: &str) -> (r: String)
        ensures
            r@ == "https://live.bilibili.com/"@ + room_id@,
    {
        let mut r = String::from_str("https://live.bilibili.com/");
        r.append(room_id);
        r
    }

    /// The room's summary text.
    pub fn summary(&self) -> (r: String)
        ensures
            r@ == room_summary(&self.data),
    {
        let mut r = String::from_str("分区:");
        r.append(self.data.area_name.as_str());
        r.append("\n标题:");
        r.append(self.data.title.as_str());
        r.append("\n简介:");
        r.append(self.data.description.as_str());
        r.append("\n热度:");
        let online = crate::text::u64_to_dec(self.data.online as u64);
        r.append(online.as_str());
        r.append(", 关注:");
        let attention = crate::text::u64_to_dec(self.data.attention as u64);
        r.append(attention.as_str());
        r.append("\n");
        r
    }

    /// The cover image to attach: the key frame when one is set, else the
    /// user cover, else nothing.
    pub fn pick_cover(&self) -> (r: Option<&String>)
        ensures
            match r {
                Some(s) => (self.data.keyframe@.len() > 0 && s@ == self.data.keyframe@) || (
                    self.data.keyframe@.len() == 0 && self.data.user_cover@.len() > 0 && s@
                        == self.data.user_cover@),
                None => self.data.keyframe@.len() == 0 && self.data.user_cover@.len() == 0,
            },
    {
        if self.data.keyframe.as_str().unicode_len() > 0 {
            Some(&self.data.keyframe)
        } else if self.data.user_cover.as_str().unicode_len() > 0 {
            Some(&self.data.user_cover)
        } else {
            None
        }
    }

    /// The body of an online notification: the configured message, the
    /// room's link, and its summary.
    pub fn online_notification(&self, online_msg: &str, room_id: &str) -> (r: String)
        ensures
            r@ == online_msg@ + "\n链接:"@ + "https://live.bilibili.com/"@ + room_id@ + "\n"@
                + room_summary(&self.data),
    {
        let mut r = String::from_str(online_msg);
        r.append("\n链接:");
        let url = Self::url_from_id(room_id);
        r.append(url.as_str());
        r.append("\n");
        let s = self.summary();
        r.append(s.as_str());
        r
    }
}

} // verus!
