//! The menu of the strip and the tray.

use vstd::prelude::*;

use crate::model::Device;
use crate::settings;
use crate::settings::{DeviceRow, RowView, Settings};
use crate::text::owned;

verus! {

pub const MID_TOGGLE: usize = 1000;

pub const MID_REFRESH: usize = 1002;

pub const MID_INT10: usize = 1018;

pub const MID_INT30: usize = 1003;

pub const MID_INT60: usize = 1004;

pub const MID_INT300: usize = 1005;

pub const MID_AUTOSTART: usize = 1006;

pub const MID_NOTIFY: usize = 1007;

pub const MID_EXIT: usize = 1008;

pub const MID_SHOW_OFFLINE: usize = 1010;

pub const MID_POS_LEFT: usize = 1011;

pub const MID_POS_RIGHT: usize = 1012;

pub const MID_LOW10: usize = 1013;

pub const MID_LOW20: usize = 1014;

pub const MID_LOW30: usize = 1015;

pub const MID_BT_ADD: usize = 1016;

pub const MID_BT_DEVICES: usize = 1017;

pub const MID_FONT_S: usize = 1020;

pub const MID_FONT_M: usize = 1021;

pub const MID_FONT_L: usize = 1022;

pub const MID_FONT_XL: usize = 1023;

pub const MID_DEV_BASE: usize = 3100;

/// How many devices the menu lists.
pub const MAX_MENU_DEVICES: usize = 16;

/// The text sizes that the menu offers: menu id and percentage.
pub open spec fn presets() -> Seq<(usize, u32)> {
    seq![(MID_FONT_S, 80), (MID_FONT_M, 100), (MID_FONT_L, 120), (MID_FONT_XL, 140)]
}

pub fn font_presets() -> (r: Vec<(usize, u32)>)
    ensures
        r@ == presets(),
{
    let r: Vec<(usize, u32)> = vec![
        (MID_FONT_S, 80),
        (MID_FONT_M, 100),
        (MID_FONT_L, 120),
        (MID_FONT_XL, 140),
    ];
    assert(r@ =~= presets());
    r
}

/// The percentage of the text size with a menu id.
pub open spec fn preset_pct(id: usize) -> Option<u32> {
    if id == MID_FONT_S {
        Some(80)
    } else if id == MID_FONT_M {
        Some(100)
    } else if id == MID_FONT_L {
        Some(120)
    } else if id == MID_FONT_XL {
        Some(140)
    } else {
        None
    }
}

pub fn preset_for(id: usize) -> (r: Option<u32>)
    ensures
        r == preset_pct(id),
{
    if id == MID_FONT_S {
        Some(80)
    } else if id == MID_FONT_M {
        Some(100)
    } else if id == MID_FONT_L {
        Some(120)
    } else if id == MID_FONT_XL {
        Some(140)
    } else {
        None
    }
}

/// The menu and its submenus.
#[derive(Clone, Copy, Debug, PartialEq, Eq, Structural)]
pub enum Menu {
    Root,
    Display,
    Position,
    Font,
    Devices,
    Alert,
    Low,
    Poll,
}

/// One step of building the menu.
#[derive(Debug)]
pub enum MenuOp {
    Item { menu: Menu, id: usize, label: String, checked: bool, grayed: bool },
    Separator { menu: Menu },
    Popup { parent: Menu, child: Menu, label: String },
    /// Marks one of the items with ids `first` to `last` as the chosen one.
    Radio { menu: Menu, first: usize, last: usize, id: usize },
}

/// What a `MenuOp` says.
#[verifier::ext_equal]
pub enum MenuView {
    Item { menu: Menu, id: usize, label: Seq<char>, checked: bool, grayed: bool },
    Separator { menu: Menu },
    Popup { parent: Menu, child: Menu, label: Seq<char> },
    Radio { menu: Menu, first: usize, last: usize, id: usize },
}

impl View for MenuOp {
    type V = MenuView;

    open spec fn view(&self) -> MenuView {
        match *self {
            MenuOp::Item { menu, id, label, checked, grayed } => MenuView::Item {
                menu,
                id,
                label: label@,
                checked,
                grayed,
            },
            MenuOp::Separator { menu } => MenuView::Separator { menu },
            MenuOp::Popup { parent, child, label } => MenuView::Popup {
                parent,
                child,
                label: label@,
            },
            MenuOp::Radio { menu, first, last, id } => MenuView::Radio { menu, first, last, id },
        }
    }
}

/// What each step says.
pub open spec fn menu_views(ops: Seq<MenuOp>) -> Seq<MenuView> {
    ops.map_values(|o: MenuOp| o@)
}

/// An item that can be chosen.
pub open spec fn entry(menu: Menu, id: usize, label: Seq<char>, checked: bool) -> MenuView {
    MenuView::Item { menu, id, label, checked, grayed: false }
}

/// The id of the text size in force.
pub open spec fn chosen_font(pct: u32) -> usize {
    if pct == 80 {
        MID_FONT_S
    } else if pct == 120 {
        MID_FONT_L
    } else if pct == 140 {
        MID_FONT_XL
    } else {
        MID_FONT_M
    }
}

/// The submenu for how the strip looks, and the item that refreshes.
pub open spec fn display_part(visible: bool, left: bool, pct: u32) -> Seq<MenuView> {
    seq![
        entry(Menu::Display, MID_TOGGLE, "显示电量条"@, visible),
        entry(Menu::Position, MID_POS_LEFT, "靠左"@, left),
        entry(Menu::Position, MID_POS_RIGHT, "靠右"@, !left),
        MenuView::Radio {
            menu: Menu::Position,
            first: MID_POS_LEFT,
            last: MID_POS_RIGHT,
            id: if left {
                MID_POS_LEFT
            } else {
                MID_POS_RIGHT
            },
        },
        MenuView::Popup { parent: Menu::Display, child: Menu::Position, label: "位置"@ },
        entry(Menu::Font, MID_FONT_S, "小"@, pct == 80),
        entry(Menu::Font, MID_FONT_M, "标准"@, pct == 100),
        entry(Menu::Font, MID_FONT_L, "大"@, pct == 120),
        entry(Menu::Font, MID_FONT_XL, "特大"@, pct == 140),
        MenuView::Radio {
            menu: Menu::Font,
            first: MID_FONT_S,
            last: MID_FONT_XL,
            id: chosen_font(pct),
        },
        MenuView::Popup { parent: Menu::Display, child: Menu::Font, label: "字号"@ },
        MenuView::Popup { parent: Menu::Root, child: Menu::Display, label: "显示"@ },
        entry(Menu::Root, MID_REFRESH, "立即刷新"@, false),
    ]
}

/// How many of some rows the menu lists.
pub open spec fn listed_rows(rows: nat) -> int {
    if rows < MAX_MENU_DEVICES {
        rows as int
    } else {
        MAX_MENU_DEVICES as int
    }
}

/// The items of the first `n` devices.
pub open spec fn device_items(rows: Seq<RowView>, n: int) -> Seq<MenuView> {
    Seq::new(
        n as nat,
        |i: int|
            entry(
                Menu::Devices,
                (MID_DEV_BASE + i) as usize,
                DeviceRow::label_text(rows[i]),
                rows[i].shown,
            ),
    )
}

/// The submenu for devices.
pub open spec fn devices_part(show_offline: bool, rows: Seq<RowView>) -> Seq<MenuView> {
    let head = seq![
        entry(Menu::Devices, MID_SHOW_OFFLINE, "显示未连接 / 离线设备"@, show_offline),
        MenuView::Separator { menu: Menu::Devices },
    ];
    let list = if rows.len() == 0 {
        seq![
            MenuView::Item {
                menu: Menu::Devices,
                id: 0,
                label: "暂无设备"@,
                checked: false,
                grayed: true,
            },
        ]
    } else {
        device_items(rows, listed_rows(rows.len()))
    };
    let tail = seq![
        MenuView::Separator { menu: Menu::Devices },
        entry(Menu::Devices, MID_BT_ADD, "添加 / 连接蓝牙设备"@, false),
        entry(Menu::Devices, MID_BT_DEVICES, "已连接的设备"@, false),
        MenuView::Popup { parent: Menu::Root, child: Menu::Devices, label: "设备"@ },
    ];
    head + list + tail
}

/// The submenus for alerts and for the time between scans, and what follows them.
pub open spec fn alert_part(notify: bool, low: u8, poll: u64, autostart: bool) -> Seq<MenuView> {
    seq![
        entry(Menu::Alert, MID_NOTIFY, "低电量提醒"@, notify),
        entry(Menu::Low, MID_LOW10, "10%"@, low == 10),
        entry(Menu::Low, MID_LOW20, "20%"@, low == 20),
        entry(Menu::Low, MID_LOW30, "30%"@, low == 30),
        MenuView::Radio {
            menu: Menu::Low,
            first: MID_LOW10,
            last: MID_LOW30,
            id: if low == 10 {
                MID_LOW10
            } else if low == 30 {
                MID_LOW30
            } else {
                MID_LOW20
            },
        },
        MenuView::Popup { parent: Menu::Alert, child: Menu::Low, label: "阈值"@ },
        MenuView::Popup { parent: Menu::Root, child: Menu::Alert, label: "提醒"@ },
        entry(Menu::Poll, MID_INT10, "10 秒"@, poll == 10),
        entry(Menu::Poll, MID_INT30, "30 秒"@, poll == 30),
        entry(Menu::Poll, MID_INT60, "1 分钟"@, poll == 60),
        entry(Menu::Poll, MID_INT300, "5 分钟"@, poll == 300),
        MenuView::Radio {
            menu: Menu::Poll,
            first: MID_INT10,
            last: MID_INT300,
            id: if poll == 10 {
                MID_INT10
            } else if poll == 30 {
                MID_INT30
            } else if poll == 300 {
                MID_INT300
            } else {
                MID_INT60
            },
        },
        MenuView::Popup { parent: Menu::Root, child: Menu::Poll, label: "轮询间隔"@ },
        entry(Menu::Root, MID_AUTOSTART, "开机自启动"@, autostart),
        MenuView::Separator { menu: Menu::Root },
        entry(Menu::Root, MID_EXIT, "退出"@, false),
    ]
}

/// The steps that build the menu.
pub open spec fn menu_plan(cfg: Settings, rows: Seq<RowView>, pct: u32, left: bool) -> Seq<
    MenuView,
> {
    display_part(cfg.strip_visible, left, pct) + devices_part(cfg.show_offline, rows) + alert_part(
        cfg.notify_low,
        cfg.low_battery_alert,
        cfg.poll_seconds,
        cfg.autostart,
    )
}

fn item(ops: &mut Vec<MenuOp>, menu: Menu, id: usize, label: &str, checked: bool)
    ensures
        menu_views(final(ops)@) == menu_views(old(ops)@).push(entry(menu, id, label@, checked)),
{
    let ghost before = ops@;
    let o = MenuOp::Item { menu, id, label: owned(label), checked, grayed: false };
    let ghost v = o@;
    ops.push(o);
    assert(menu_views(ops@) =~= menu_views(before).push(v));
}

fn separator(ops: &mut Vec<MenuOp>, menu: Menu)
    ensures
        menu_views(final(ops)@) == menu_views(old(ops)@).push(MenuView::Separator { menu }),
{
    let ghost before = ops@;
    let o = MenuOp::Separator { menu };
    let ghost v = o@;
    ops.push(o);
    assert(menu_views(ops@) =~= menu_views(before).push(v));
}

fn popup(ops: &mut Vec<MenuOp>, parent: Menu, child: Menu, label: &str)
    ensures
        menu_views(final(ops)@) == menu_views(old(ops)@).push(
            (MenuView::Popup { parent, child, label: label@ }),
        ),
{
    let ghost before = ops@;
    let o = MenuOp::Popup { parent, child, label: owned(label) };
    let ghost v = o@;
    ops.push(o);
    assert(menu_views(ops@) =~= menu_views(before).push(v));
}

fn radio(ops: &mut Vec<MenuOp>, menu: Menu, first: usize, last: usize, id: usize)
    ensures
        menu_views(final(ops)@) == menu_views(old(ops)@).push(
            (MenuView::Radio { menu, first, last, id }),
        ),
{
    let ghost before = ops@;
    let o = MenuOp::Radio { menu, first, last, id };
    let ghost v = o@;
    ops.push(o);
    assert(menu_views(ops@) =~= menu_views(before).push(v));
}

fn push_display(ops: &mut Vec<MenuOp>, visible: bool, left: bool, pct: u32)
    ensures
        menu_views(final(ops)@) == menu_views(old(ops)@) + display_part(visible, left, pct),
{
    let ghost before = menu_views(ops@);
    item(ops, Menu::Display, MID_TOGGLE, "显示电量条", visible);
    item(ops, Menu::Position, MID_POS_LEFT, "靠左", left);
    item(ops, Menu::Position, MID_POS_RIGHT, "靠右", !left);
    radio(
        ops,
        Menu::Position,
        MID_POS_LEFT,
        MID_POS_RIGHT,
        if left {
            MID_POS_LEFT
        } else {
            MID_POS_RIGHT
        },
    );
    popup(ops, Menu::Display, Menu::Position, "位置");
    item(ops, Menu::Font, MID_FONT_S, "小", pct == 80);
    item(ops, Menu::Font, MID_FONT_M, "标准", pct == 100);
    item(ops, Menu::Font, MID_FONT_L, "大", pct == 120);
    item(ops, Menu::Font, MID_FONT_XL, "特大", pct == 140);
    let font: usize = if pct == 80 {
        MID_FONT_S
    } else if pct == 120 {
        MID_FONT_L
    } else if pct == 140 {
        MID_FONT_XL
    } else {
        MID_FONT_M
    };
    radio(ops, Menu::Font, MID_FONT_S, MID_FONT_XL, font);
    popup(ops, Menu::Display, Menu::Font, "字号");
    popup(ops, Menu::Root, Menu::Display, "显示");
    item(ops, Menu::Root, MID_REFRESH, "立即刷新", false);
    assert(menu_views(ops@) =~= before + display_part(visible, left, pct));
}

fn push_devices(ops: &mut Vec<MenuOp>, show_offline: bool, rows: &Vec<DeviceRow>)
    ensures
        menu_views(final(ops)@) == menu_views(old(ops)@) + devices_part(
            show_offline,
            settings::row_views(rows@),
        ),
{
    let ghost before = menu_views(ops@);
    let ghost views = settings::row_views(rows@);
    item(ops, Menu::Devices, MID_SHOW_OFFLINE, "显示未连接 / 离线设备", show_offline);
    separator(ops, Menu::Devices);
    let ghost head = menu_views(ops@);
    if rows.len() == 0 {
        let o = MenuOp::Item {
            menu: Menu::Devices,
            id: 0,
            label: owned("暂无设备"),
            checked: false,
            grayed: true,
        };
        let ghost v = o@;
        let ghost at = ops@;
        ops.push(o);
        assert(menu_views(ops@) =~= menu_views(at).push(v));
    } else {
        let n: usize = if rows.len() < MAX_MENU_DEVICES {
            rows.len()
        } else {
            MAX_MENU_DEVICES
        };
        assert(head + device_items(views, 0) =~= head);
        for i in 0..n
            invariant
                n <= MAX_MENU_DEVICES,
                n <= rows@.len(),
                views == settings::row_views(rows@),
                menu_views(ops@) == head + device_items(views, i as int),
        {
            let label = rows[i].label();
            item(ops, Menu::Devices, MID_DEV_BASE + i, label.as_str(), rows[i].shown);
            assert(views[i as int] == rows@[i as int]@);
            assert(head + device_items(views, i + 1) =~= (head + device_items(
                views,
                i as int,
            )).push(device_items(views, i + 1)[i as int]));
        }
    }
    separator(ops, Menu::Devices);
    item(ops, Menu::Devices, MID_BT_ADD, "添加 / 连接蓝牙设备", false);
    item(ops, Menu::Devices, MID_BT_DEVICES, "已连接的设备", false);
    popup(ops, Menu::Root, Menu::Devices, "设备");
    assert(menu_views(ops@) =~= before + devices_part(show_offline, views));
}

fn push_alerts(ops: &mut Vec<MenuOp>, notify: bool, low: u8, poll: u64, autostart: bool)
    ensures
        menu_views(final(ops)@) == menu_views(old(ops)@) + alert_part(notify, low, poll, autostart),
{
    let ghost before = menu_views(ops@);
    item(ops, Menu::Alert, MID_NOTIFY, "低电量提醒", notify);
    item(ops, Menu::Low, MID_LOW10, "10%", low == 10);
    item(ops, Menu::Low, MID_LOW20, "20%", low == 20);
    item(ops, Menu::Low, MID_LOW30, "30%", low == 30);
    let low_id: usize = if low == 10 {
        MID_LOW10
    } else if low == 30 {
        MID_LOW30
    } else {
        MID_LOW20
    };
    radio(ops, Menu::Low, MID_LOW10, MID_LOW30, low_id);
    popup(ops, Menu::Alert, Menu::Low, "阈值");
    popup(ops, Menu::Root, Menu::Alert, "提醒");
    item(ops, Menu::Poll, MID_INT10, "10 秒", poll == 10);
    item(ops, Menu::Poll, MID_INT30, "30 秒", poll == 30);
    item(ops, Menu::Poll, MID_INT60, "1 分钟", poll == 60);
    item(ops, Menu::Poll, MID_INT300, "5 分钟", poll == 300);
    let poll_id: usize = if poll == 10 {
        MID_INT10
    } else if poll == 30 {
        MID_INT30
    } else if poll == 300 {
        MID_INT300
    } else {
        MID_INT60
    };
    radio(ops, Menu::Poll, MID_INT10, MID_INT300, poll_id);
    popup(ops, Menu::Root, Menu::Poll, "轮询间隔");
    item(ops, Menu::Root, MID_AUTOSTART, "开机自启动", autostart);
    separator(ops, Menu::Root);
    item(ops, Menu::Root, MID_EXIT, "退出", false);
    assert(menu_views(ops@) =~= before + alert_part(notify, low, poll, autostart));
}

/// Builds the menu for the present devices; `pct` is the text size in force. The
/// second result holds the addresses of the listed devices, in the order of their
/// items.
pub fn show_menu(cfg: &Settings, live: &[Device], pct: u32) -> (r: (Vec<MenuOp>, Vec<String>))
    ensures
        ({
            let rows = settings::settings_rows(cfg.hidden(), cfg.known(), live@);
            &&& menu_views(r.0@) == menu_plan(
                *cfg,
                rows,
                pct,
                crate::text::same_ignoring_case(cfg.strip_side@, "left"@),
            )
            &&& crate::model::texts(r.1@) == Seq::new(
                listed_rows(rows.len()) as nat,
                |i: int| rows[i].address,
            )
        }),
{
    let rows = cfg.rows_for_settings(live);
    let ghost views = settings::row_views(rows@);
    let mut ops: Vec<MenuOp> = Vec::new();
    let ghost none = menu_views(ops@);
    assert(none =~= Seq::empty());
    let left = cfg.dock_left();
    push_display(&mut ops, cfg.strip_visible, left, pct);
    push_devices(&mut ops, cfg.show_offline, &rows);
    push_alerts(
        &mut ops,
        cfg.notify_low,
        cfg.low_battery_alert,
        cfg.poll_seconds,
        cfg.autostart,
    );
    assert(menu_views(ops@) =~= menu_plan(*cfg, views, pct, left));
    let n: usize = if rows.len() < MAX_MENU_DEVICES {
        rows.len()
    } else {
        MAX_MENU_DEVICES
    };
    let mut addrs: Vec<String> = Vec::new();
    let ghost want = Seq::new(listed_rows(views.len()) as nat, |i: int| views[i].address);
    for i in 0..n
        invariant
            n <= rows@.len(),
            n == want.len(),
            views == settings::row_views(rows@),
            want == Seq::new(listed_rows(views.len()) as nat, |i: int| views[i].address),
            crate::model::texts(addrs@) == want.take(i as int),
    {
        let ghost before = addrs@;
        assert(want[i as int] == rows@[i as int].address@);
        addrs.push(rows[i].address.clone());
        assert(crate::model::texts(addrs@) =~= crate::model::texts(before).push(want[i as int]));
        assert(want.take(i + 1) =~= want.take(i as int).push(want[i as int]));
    }
    assert(want.take(n as int) =~= want);
    (ops, addrs)
}

/// The text sizes that the menu offers have ids of their own, lie within bounds,
/// and hold the one that the layout was designed for.
pub proof fn law_presets_are_sane()
    ensures
        forall|i: int, j: int|
            0 <= i < j < presets().len() ==> (#[trigger] presets()[i]).0 != (
            #[trigger] presets()[j]).0,
        forall|i: int|
            0 <= i < presets().len() ==> settings::MIN_TEXT_PCT <= (#[trigger] presets()[i]).1
                <= settings::MAX_TEXT_PCT && preset_pct(presets()[i].0) == Some(presets()[i].1),
        presets()[1].1 == settings::DEFAULT_TEXT_PCT,
{
}

/// The menu has an entry of a submenu with an id, a label and a mark.
pub open spec fn offers(
    plan: Seq<MenuView>,
    menu: Menu,
    id: usize,
    label: Seq<char>,
    checked: bool,
) -> bool {
    plan.contains((MenuView::Item { menu, id, label, checked, grayed: false }))
}

proof fn lemma_parts(cfg: Settings, rows: Seq<RowView>, pct: u32, left: bool, v: MenuView)
    ensures
        display_part(cfg.strip_visible, left, pct).contains(v) || devices_part(
            cfg.show_offline,
            rows,
        ).contains(v) || alert_part(
            cfg.notify_low,
            cfg.low_battery_alert,
            cfg.poll_seconds,
            cfg.autostart,
        ).contains(v) ==> menu_plan(cfg, rows, pct, left).contains(v),
{
    let a = display_part(cfg.strip_visible, left, pct);
    let b = devices_part(cfg.show_offline, rows);
    let c = alert_part(
        cfg.notify_low,
        cfg.low_battery_alert,
        cfg.poll_seconds,
        cfg.autostart,
    );
    let plan = menu_plan(cfg, rows, pct, left);
    if a.contains(v) {
        let i = choose|i: int| 0 <= i < a.len() && a[i] == v;
        assert(plan[i] == v);
    } else if b.contains(v) {
        let i = choose|i: int| 0 <= i < b.len() && b[i] == v;
        assert(plan[a.len() + i] == v);
    } else if c.contains(v) {
        let i = choose|i: int| 0 <= i < c.len() && c[i] == v;
        assert(plan[a.len() + b.len() + i] == v);
    }
}

/// The menu offers each way to show the strip, and marks the one that holds: whether it
/// is shown, on which side, and in which text size.
pub proof fn law_menu_shows_how_strip_looks(
    cfg: Settings,
    rows: Seq<RowView>,
    pct: u32,
    left: bool,
)
    ensures
        ({
            let plan = menu_plan(cfg, rows, pct, left);
            &&& offers(plan, Menu::Display, 1000, "显示电量条"@, cfg.strip_visible)
            &&& offers(plan, Menu::Position, 1011, "靠左"@, left)
            &&& offers(plan, Menu::Position, 1012, "靠右"@, !left)
            &&& offers(plan, Menu::Font, 1020, "小"@, pct == 80)
            &&& offers(plan, Menu::Font, 1021, "标准"@, pct == 100)
            &&& offers(plan, Menu::Font, 1022, "大"@, pct == 120)
            &&& offers(plan, Menu::Font, 1023, "特大"@, pct == 140)
            &&& offers(plan, Menu::Root, 1002, "立即刷新"@, false)
        }),
{
    let part = display_part(cfg.strip_visible, left, pct);
    assert forall|i: int| 0 <= i < part.len() implies menu_plan(cfg, rows, pct, left).contains(
        #[trigger] part[i],
    ) by {
        lemma_parts(cfg, rows, pct, left, part[i]);
    }
    assert(part.len() == 13);
    let t = (part[0], part[1], part[2], part[5], part[6], part[7], part[8], part[12]);
}

/// The menu offers each choice for alerts and for the time between scans, and marks
/// those that hold.
pub proof fn law_menu_shows_alerts_and_interval(
    cfg: Settings,
    rows: Seq<RowView>,
    pct: u32,
    left: bool,
)
    ensures
        ({
            let plan = menu_plan(cfg, rows, pct, left);
            &&& offers(plan, Menu::Alert, 1007, "低电量提醒"@, cfg.notify_low)
            &&& offers(plan, Menu::Low, 1013, "10%"@, cfg.low_battery_alert == 10)
            &&& offers(plan, Menu::Low, 1014, "20%"@, cfg.low_battery_alert == 20)
            &&& offers(plan, Menu::Low, 1015, "30%"@, cfg.low_battery_alert == 30)
            &&& offers(plan, Menu::Poll, 1018, "10 秒"@, cfg.poll_seconds == 10)
            &&& offers(plan, Menu::Poll, 1003, "30 秒"@, cfg.poll_seconds == 30)
            &&& offers(plan, Menu::Poll, 1004, "1 分钟"@, cfg.poll_seconds == 60)
            &&& offers(plan, Menu::Poll, 1005, "5 分钟"@, cfg.poll_seconds == 300)
            &&& offers(plan, Menu::Root, 1006, "开机自启动"@, cfg.autostart)
            &&& offers(plan, Menu::Root, 1008, "退出"@, false)
        }),
{
    let part = alert_part(
        cfg.notify_low,
        cfg.low_battery_alert,
        cfg.poll_seconds,
        cfg.autostart,
    );
    assert forall|i: int| 0 <= i < part.len() implies menu_plan(cfg, rows, pct, left).contains(
        #[trigger] part[i],
    ) by {
        lemma_parts(cfg, rows, pct, left, part[i]);
    }
    assert(part.len() == 16);
    let t = (part[0], part[1], part[2], part[3], part[7], part[8], part[9], part[10], part[13]);
    let u = part[15];
}

/// The menu lists each of the first sixteen devices with its label, marked if it is
/// shown; without any device it says so, in an entry that cannot be chosen. The
/// entries for Bluetooth are always there.
pub proof fn law_menu_lists_devices(
    cfg: Settings,
    rows: Seq<RowView>,
    pct: u32,
    left: bool,
    i: int,
)
    requires
        0 <= i,
    ensures
        ({
            let plan = menu_plan(cfg, rows, pct, left);
            &&& i < rows.len() && i < 16 ==> offers(
                plan,
                Menu::Devices,
                (3100 + i) as usize,
                DeviceRow::label_text(rows[i]),
                rows[i].shown,
            )
            &&& rows.len() == 0 ==> plan.contains(
                MenuView::Item {
                    menu: Menu::Devices,
                    id: 0,
                    label: "暂无设备"@,
                    checked: false,
                    grayed: true,
                },
            )
            &&& offers(plan, Menu::Devices, 1010, "显示未连接 / 离线设备"@, cfg.show_offline)
            &&& offers(plan, Menu::Devices, 1016, "添加 / 连接蓝牙设备"@, false)
            &&& offers(plan, Menu::Devices, 1017, "已连接的设备"@, false)
        }),
{
    let part = devices_part(cfg.show_offline, rows);
    assert forall|k: int| 0 <= k < part.len() implies menu_plan(cfg, rows, pct, left).contains(
        #[trigger] part[k],
    ) by {
        lemma_parts(cfg, rows, pct, left, part[k]);
    }
    let n = part.len() as int;
    assert(part[0] == entry(Menu::Devices, 1010, "显示未连接 / 离线设备"@, cfg.show_offline));
    assert(part[n - 3] == entry(Menu::Devices, 1016, "添加 / 连接蓝牙设备"@, false));
    assert(part[n - 2] == entry(Menu::Devices, 1017, "已连接的设备"@, false));
    if i < rows.len() && i < 16 {
        assert(part[2 + i] == device_items(rows, listed_rows(rows.len()))[i]);
    }
    if rows.len() == 0 {
        let t = part[2];
    }
}

/// The menu lists no more devices than there are, nor more than sixteen, and the
/// submenus are all reached from its root.
pub proof fn law_menu_lists_no_others(cfg: Settings, rows: Seq<RowView>, pct: u32, left: bool)
    ensures
        ({
            let plan = menu_plan(cfg, rows, pct, left);
            let n = if rows.len() == 0 {
                1
            } else if rows.len() < 16 {
                rows.len() as int
            } else {
                16
            };
            &&& plan.len() == 13 + 2 + n + 4 + 16
            &&& plan.contains(
                (MenuView::Popup { parent: Menu::Root, child: Menu::Display, label: "显示"@ }),
            )
            &&& plan.contains(
                (MenuView::Popup { parent: Menu::Display, child: Menu::Position, label: "位置"@ }),
            )
            &&& plan.contains(
                (MenuView::Popup { parent: Menu::Display, child: Menu::Font, label: "字号"@ }),
            )
            &&& plan.contains(
                (MenuView::Popup { parent: Menu::Root, child: Menu::Devices, label: "设备"@ }),
            )
            &&& plan.contains(
                (MenuView::Popup { parent: Menu::Root, child: Menu::Alert, label: "提醒"@ }),
            )
            &&& plan.contains(
                (MenuView::Popup { parent: Menu::Alert, child: Menu::Low, label: "阈值"@ }),
            )
            &&& plan.contains(
                (MenuView::Popup { parent: Menu::Root, child: Menu::Poll, label: "轮询间隔"@ }),
            )
        }),
{
    let plan = menu_plan(cfg, rows, pct, left);
    let a = display_part(cfg.strip_visible, left, pct);
    let b = devices_part(cfg.show_offline, rows);
    let c = alert_part(
        cfg.notify_low,
        cfg.low_battery_alert,
        cfg.poll_seconds,
        cfg.autostart,
    );
    assert(a.len() == 13 && c.len() == 16);
    assert(plan[4] == a[4] && plan[10] == a[10] && plan[11] == a[11]);
    assert(plan[13 + b.len() - 1] == b[b.len() - 1]);
    let k = 13 + b.len() as int;
    assert(plan[k + 5] == c[5] && plan[k + 6] == c[6] && plan[k + 12] == c[12]);
}

/// One of the entries of a submenu from `first` to `last` is marked as chosen.
pub open spec fn marks(
    plan: Seq<MenuView>,
    menu: Menu,
    first: usize,
    last: usize,
    id: usize,
) -> bool {
    plan.contains((MenuView::Radio { menu, first, last, id }))
}

/// In each group of choices the mark stands at the one that holds: the radio marks go
/// with the checked entries where one of the offered values is in force, and at the
/// usual value otherwise.
pub proof fn law_radio_marks_what_holds(
    cfg: Settings,
    rows: Seq<RowView>,
    pct: u32,
    left: bool,
)
    ensures
        ({
            let plan = menu_plan(cfg, rows, pct, left);
            &&& plan.contains(
                MenuView::Radio {
                    menu: Menu::Position,
                    first: 1011,
                    last: 1012,
                    id: if left {
                        1011
                    } else {
                        1012
                    },
                },
            )
            &&& exists|id: usize|
                #[trigger] marks(menu_plan(cfg, rows, pct, left), Menu::Font, 1020, 1023, id) && (preset_pct(id) == Some(pct) || (id == 1021 && pct != 80 && pct != 120 && pct
                    != 140))
            &&& exists|id: usize|
                #[trigger] marks(menu_plan(cfg, rows, pct, left), Menu::Low, 1013, 1015, id) && (id == 1013 <==> cfg.low_battery_alert == 10) && (id == 1015
                    <==> cfg.low_battery_alert == 30) && 1013 <= id <= 1015
            &&& exists|id: usize|
                #[trigger] marks(menu_plan(cfg, rows, pct, left), Menu::Poll, 1018, 1005, id) && (id == 1018 <==> cfg.poll_seconds == 10) && (id == 1003 <==> cfg.poll_seconds
                    == 30) && (id == 1005 <==> cfg.poll_seconds == 300) && (id == 1018 || id == 1003
                    || id == 1004 || id == 1005)
        }),
{
    let plan = menu_plan(cfg, rows, pct, left);
    let a = display_part(cfg.strip_visible, left, pct);
    let b = devices_part(cfg.show_offline, rows);
    let c = alert_part(
        cfg.notify_low,
        cfg.low_battery_alert,
        cfg.poll_seconds,
        cfg.autostart,
    );
    assert(a.len() == 13 && c.len() == 16);
    let k = 13 + b.len() as int;
    assert(plan[3] == a[3] && plan[9] == a[9]);
    assert(plan[k + 4] == c[4] && plan[k + 11] == c[11]);
    assert(marks(plan, Menu::Font, 1020, 1023, a[9]->Radio_id));
    assert(marks(plan, Menu::Low, 1013, 1015, c[4]->Radio_id));
    assert(marks(plan, Menu::Poll, 1018, 1005, c[11]->Radio_id));
}

/// The steps that build the menu say what they do, each in turn.
pub proof fn law_menu_steps_tell_all(ops: Seq<MenuOp>, i: int)
    requires
        0 <= i < ops.len(),
    ensures
        menu_views(ops).len() == ops.len(),
        match ops[i] {
            MenuOp::Item { menu, id, label, checked, grayed } => menu_views(ops)[i]
                == (MenuView::Item { menu, id, label: label@, checked, grayed }),
            MenuOp::Separator { menu } => menu_views(ops)[i] == (MenuView::Separator { menu }),
            MenuOp::Popup { parent, child, label } => menu_views(ops)[i] == (MenuView::Popup {
                parent,
                child,
                label: label@,
            }),
            MenuOp::Radio { menu, first, last, id } => menu_views(ops)[i] == (MenuView::Radio {
                menu,
                first,
                last,
                id,
            }),
        },
{
}

/// As many devices are listed as there are, up to sixteen.
pub proof fn law_sixteen_devices_at_most(n: nat)
    ensures
        listed_rows(n) <= 16,
        listed_rows(n) <= n,
        listed_rows(n) == n || listed_rows(n) == 16,
{
}

} // verus!
