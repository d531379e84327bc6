use momo_core::presence::{
    exists_from_code, live_transition, streaming_from_status, LiveData, LiveRoom, LiveSetting,
    LiveSwitch, TickEffect,
};

fn room(streaming: bool) -> LiveRoom {
    LiveRoom {
        exist: true,
        data: LiveData {
            is_streaming: streaming,
            online: 1500,
            attention: 23,
            keyframe: "https://img/key.jpg".to_string(),
            user_cover: "https://img/cover.jpg".to_string(),
            area_name: "游戏".to_string(),
            description: "desc".to_string(),
            title: "一个直播间".to_string(),
        },
    }
}

fn setting() -> LiveSetting {
    LiveSetting::new(
        "12345".to_string(),
        "went live".to_string(),
        "went offline".to_string(),
        "查询直播间".to_string(),
        60,
    )
}

#[test]
fn startup_tick_settles_state_without_notifying() {
    let mut live = setting();
    assert_eq!(live.get_switch(), LiveSwitch::Init);
    let eff = live.tick(true, true);
    assert_eq!(eff, TickEffect::Silent);
    assert_eq!(live.get_switch(), LiveSwitch::On);

    let eff = live.tick(true, false);
    assert_eq!(eff, TickEffect::NotifyOffline);
    assert_eq!(live.get_switch(), LiveSwitch::Off);

    let eff = live.tick(true, false);
    assert_eq!(eff, TickEffect::Silent);
    assert_eq!(live.get_switch(), LiveSwitch::Off);
}

#[test]
fn going_live_notifies_once() {
    let mut live = setting();
    live.tick(true, false);
    assert_eq!(live.get_switch(), LiveSwitch::Off);
    assert_eq!(live.tick(true, true), TickEffect::NotifyLive);
    assert_eq!(live.get_switch(), LiveSwitch::On);
    assert_eq!(live.tick(true, true), TickEffect::Silent);
    assert_eq!(live.get_switch(), LiveSwitch::On);
}

#[test]
fn missing_room_skips_the_tick() {
    let mut live = setting();
    live.tick(true, true);
    let eff = live.tick(false, false);
    assert_eq!(eff, TickEffect::RoomMissing);
    assert_eq!(live.get_switch(), LiveSwitch::On);
}

#[test]
fn transition_table_is_exact() {
    assert_eq!(live_transition(LiveSwitch::Init, true), (LiveSwitch::On, TickEffect::Silent));
    assert_eq!(live_transition(LiveSwitch::Init, false), (LiveSwitch::Off, TickEffect::Silent));
    assert_eq!(live_transition(LiveSwitch::On, true), (LiveSwitch::On, TickEffect::Silent));
    assert_eq!(
        live_transition(LiveSwitch::On, false),
        (LiveSwitch::Off, TickEffect::NotifyOffline)
    );
    assert_eq!(live_transition(LiveSwitch::Off, false), (LiveSwitch::Off, TickEffect::Silent));
    assert_eq!(live_transition(LiveSwitch::Off, true), (LiveSwitch::On, TickEffect::NotifyLive));
    assert_eq!(
        live_transition(LiveSwitch::Trap, true),
        (LiveSwitch::Trap, TickEffect::TrapError)
    );
    assert_eq!(
        live_transition(LiveSwitch::Trap, false),
        (LiveSwitch::Trap, TickEffect::TrapError)
    );
}

#[test]
fn switch_round_trips_through_its_encoding() {
    let mut live = setting();
    for s in [LiveSwitch::On, LiveSwitch::Off, LiveSwitch::Init, LiveSwitch::Trap] {
        live.set_switch(s);
        assert_eq!(live.get_switch(), s);
    }
}

#[test]
fn trap_state_never_notifies() {
    let mut live = setting();
    live.set_switch(LiveSwitch::Trap);
    assert_eq!(live.tick(true, true), TickEffect::TrapError);
    assert_eq!(live.get_switch(), LiveSwitch::Trap);
    assert_eq!(live.tick(true, false), TickEffect::TrapError);
    assert_eq!(live.get_switch(), LiveSwitch::Trap);
}

#[test]
fn room_url_and_summary_are_exact() {
    assert_eq!(LiveRoom::url_from_id("765"), "https://live.bilibili.com/765");
    let r = room(true);
    assert_eq!(r.summary(), "分区:游戏\n标题:一个直播间\n简介:desc\n热度:1500, 关注:23\n");
    assert_eq!(
        r.online_notification("went live", "765"),
        "went live\n链接:https://live.bilibili.com/765\n分区:游戏\n标题:一个直播间\n简介:desc\n热度:1500, 关注:23\n"
    );
}

#[test]
fn cover_falls_back_from_keyframe_to_user_cover() {
    let r = room(true);
    assert_eq!(r.pick_cover(), Some(&"https://img/key.jpg".to_string()));

    let mut no_key = room(true);
    no_key.data.keyframe = String::new();
    assert_eq!(no_key.pick_cover(), Some(&"https://img/cover.jpg".to_string()));

    let mut none = room(true);
    none.data.keyframe = String::new();
    none.data.user_cover = String::new();
    assert_eq!(none.pick_cover(), None);
}

#[test]
fn liveness_codes_decode_as_documented() {
    assert!(exists_from_code(0));
    assert!(!exists_from_code(1));
    assert!(!exists_from_code(-4));
    assert!(streaming_from_status(1));
    assert!(!streaming_from_status(0));
    assert!(!streaming_from_status(2));
}
