//! Which HID collections belong to a 2.4 GHz receiver, what the peripheral
//! behind it is, and what it is called.

use vstd::prelude::*;

use crate::text;
use crate::text::{
    chars_of, from_chars, has_text, hex_only, owned, parse_number, push_hex, push_text, same, split_piece,
    to_ascii_upper, trim,
};

verus! {

// ------------------------------------------------------------------- usages

pub fn is_mouse_usage(page: u16, usage: u16) -> (r: bool)
    ensures
        r == mouse_usage((page, usage)),
{
    page == 0x0001 && usage == 0x0002
}

pub fn is_keyboard_usage(page: u16, usage: u16) -> (r: bool)
    ensures
        r == keyboard_usage((page, usage)),
{
    page == 0x0001 && (usage == 0x0006 || usage == 0x0007)
}

pub fn is_vendor_page(page: u16) -> (r: bool)
    ensures
        r == (page >= 0xFF00),
{
    page >= 0xFF00
}

/// A collection is that of a mouse.
pub open spec fn mouse_usage(u: (u16, u16)) -> bool {
    u.0 == 0x0001 && u.1 == 0x0002
}

/// A collection is that of a keyboard or keypad.
pub open spec fn keyboard_usage(u: (u16, u16)) -> bool {
    u.0 == 0x0001 && (u.1 == 0x0006 || u.1 == 0x0007)
}

/// Some collection is that of a mouse.
pub open spec fn some_mouse(m: Seq<(u16, u16)>) -> bool {
    exists|i: int| 0 <= i < m.len() && mouse_usage(#[trigger] m[i])
}

/// Some collection is that of a keyboard.
pub open spec fn some_keyboard(m: Seq<(u16, u16)>) -> bool {
    exists|i: int| 0 <= i < m.len() && keyboard_usage(#[trigger] m[i])
}

/// Some collection has a page of `low` or above, up to `high`.
pub open spec fn some_page(m: Seq<(u16, u16)>, low: u16, high: u16) -> bool {
    exists|i: int| 0 <= i < m.len() && low <= (#[trigger] m[i]).0 && m[i].0 <= high
}

fn has_mouse(m: &[(u16, u16)]) -> (r: bool)
    ensures
        r == some_mouse(m@),
{
    for i in 0..m.len()
        invariant
            forall|j: int| 0 <= j < i ==> !mouse_usage(#[trigger] m@[j]),
    {
        if is_mouse_usage(m[i].0, m[i].1) {
            assert(mouse_usage(m@[i as int]));
            return true;
        }
    }
    false
}

fn has_keyboard(m: &[(u16, u16)]) -> (r: bool)
    ensures
        r == some_keyboard(m@),
{
    for i in 0..m.len()
        invariant
            forall|j: int| 0 <= j < i ==> !keyboard_usage(#[trigger] m@[j]),
    {
        if is_keyboard_usage(m[i].0, m[i].1) {
            assert(keyboard_usage(m@[i as int]));
            return true;
        }
    }
    false
}

fn has_page(m: &[(u16, u16)], low: u16, high: u16) -> (r: bool)
    ensures
        r == some_page(m@, low, high),
{
    for i in 0..m.len()
        invariant
            forall|j: int|
                0 <= j < i ==> !(low <= (#[trigger] m@[j]).0 && m@[j].0 <= high),
    {
        if low <= m[i].0 && m[i].0 <= high {
            assert(low <= m@[i as int].0 && m@[i as int].0 <= high);
            return true;
        }
    }
    false
}

// ------------------------------------------------------------------ vendors

pub open spec fn compx_vid(vid: u16) -> bool {
    vid == 0x373B || vid == 0x3554 || vid == 0x391D
}

pub fn is_compx_vid(vid: u16) -> (r: bool)
    ensures
        r == compx_vid(vid),
{
    vid == 0x373B || vid == 0x3554 || vid == 0x391D
}

pub fn is_sonix_vid(vid: u16) -> (r: bool)
    ensures
        r == (vid == 0x0C45),
{
    vid == 0x0C45
}

/// Whether a vendor's receivers answer Logitech HID++ queries.
pub fn is_hidpp_vid(vid: u16) -> (r: bool)
    ensures
        r == (vid == 0x046D),
{
    vid == 0x046D
}

/// Vendors of 2.4 GHz receivers: Compx / ATK, Logitech, VXE, Glorious, Razer,
/// SteelSeries, HyperX, Keychron, Sharkoon, Maxxter and VGN.
pub open spec fn known_24g_vids() -> Seq<u16> {
    seq![
        0x373Bu16,
        0x046D,
        0x3554,
        0x258A,
        0x1532,
        0x1038,
        0x0951,
        0x3434,
        0x1EA7,
        0x248A,
        0x391D,
    ]
}

/// A vendor is known for 2.4 GHz receivers.
pub open spec fn known_24g_vid(vid: u16) -> bool {
    known_24g_vids().contains(vid)
}

pub fn is_known_24g_vid(vid: u16) -> (r: bool)
    ensures
        r == known_24g_vid(vid),
{
    let known: [u16; 11] = [
        0x373B,
        0x046D,
        0x3554,
        0x258A,
        0x1532,
        0x1038,
        0x0951,
        0x3434,
        0x1EA7,
        0x248A,
        0x391D,
    ];
    assert(known@ =~= known_24g_vids());
    for i in 0..11usize
        invariant
            known@ == known_24g_vids(),
            forall|j: int| 0 <= j < i ==> known@[j] != vid,
    {
        if known[i] == vid {
            assert(known@[i as int] == vid);
            return true;
        }
    }
    false
}

// ---------------------------------------------------------------- filtering

/// A product name in lower case is that of a 2.4 GHz receiver.
pub open spec fn names_24g(lower: Seq<char>) -> bool {
    ||| text::contains(lower, "2.4"@)
    ||| text::contains(lower, "dongle"@)
    ||| text::contains(lower, "receiver"@)
    ||| text::contains(lower, "unifying"@)
    ||| text::contains(lower, "lightspeed"@)
}

/// Whether a product name in lower case is that of a 2.4 GHz receiver.
pub fn lower_name_is_24g(lower: &str) -> (r: bool)
    ensures
        r == names_24g(lower@),
{
    has_text(lower, "2.4") || has_text(lower, "dongle") || has_text(lower, "receiver") || has_text(lower, "unifying")
        || has_text(lower, "lightspeed")
}

pub fn looks_like_24g_product(product: &str) -> (r: bool)
    ensures
        r == names_24g(text::lowercase(product@)),
{
    let lower = product.to_lowercase();
    lower_name_is_24g(lower.as_str())
}

/// Collections that are no peripheral of interest, told by the product name and
/// the path, both in lower case, and by a digitizer page.
pub open spec fn is_noise(product: Seq<char>, path: Seq<char>, m: Seq<(u16, u16)>) -> bool {
    ||| text::contains(product, "virtual"@)
    ||| text::contains(product, "hidi2c"@)
    ||| text::contains(product, "camera"@)
    ||| text::contains(product, "webcam"@)
    ||| text::contains(product, "audio"@)
    ||| text::contains(path, "gvinput"@)
    ||| text::contains(path, "vhf"@)
    ||| text::contains(path, "hid_device_system"@)
    ||| some_page(m, 0x000D, 0x000D)
}

/// Whether collections are no peripheral of interest, given the product name and
/// the path in lower case.
pub fn lower_is_noise(product: &str, path: &str, members: &[(u16, u16)]) -> (r: bool)
    ensures
        r == is_noise(product@, path@, members@),
{
    if has_text(product, "virtual") || has_text(product, "hidi2c") || has_text(product, "camera") || has_text(
        product,
        "webcam",
    ) || has_text(product, "audio") {
        return true;
    }
    if has_text(path, "gvinput") || has_text(path, "vhf") || has_text(path, "hid_device_system") {
        return true;
    }
    has_page(members, 0x000D, 0x000D)
}

pub fn skip_noise(product: &str, path: &str, members: &[(u16, u16)]) -> (r: bool)
    ensures
        r == is_noise(text::lowercase(product@), text::lowercase(path@), members@),
{
    let p = product.to_lowercase();
    let h = path.to_lowercase();
    lower_is_noise(p.as_str(), h.as_str(), members)
}

/// Collections are those of a receiver to show, given the product name and the
/// path in lower case. The Sonix vendor id serves cameras too: of it only the
/// keyboard's dongle (`FEFE`) and cable (`8006`) count, unless the name says
/// 2.4 GHz.
pub open spec fn is_receiver(
    vid: u16,
    pid: u16,
    product: Seq<char>,
    path: Seq<char>,
    m: Seq<(u16, u16)>,
) -> bool {
    if m.len() == 0 || is_noise(product, path, m) {
        false
    } else if vid == 0x0C45 {
        pid == 0xFEFE || pid == 0x8006 || names_24g(product)
    } else if known_24g_vid(vid) || names_24g(product) {
        true
    } else {
        (some_mouse(m) || some_keyboard(m)) && some_page(m, 0xFF00, 0xFFFF)
    }
}

/// Whether collections are those of a receiver to show, given the product name
/// and the path in lower case.
pub fn include_lower(
    vid: u16,
    pid: u16,
    product: &str,
    path: &str,
    members: &[(u16, u16)],
) -> (r: bool)
    ensures
        r == is_receiver(vid, pid, product@, path@, members@),
{
    if members.len() == 0 || lower_is_noise(product, path, members) {
        return false;
    }
    if is_sonix_vid(vid) {
        return pid == 0xFEFE || pid == 0x8006 || lower_name_is_24g(product);
    }
    if is_known_24g_vid(vid) || lower_name_is_24g(product) {
        return true;
    }
    (has_mouse(members) || has_keyboard(members)) && has_page(members, 0xFF00, 0xFFFF)
}

pub fn include_receiver(
    vid: u16,
    pid: u16,
    product: &str,
    path: &str,
    members: &[(u16, u16)],
) -> (r: bool)
    ensures
        r == is_receiver(
            vid,
            pid,
            text::lowercase(product@),
            text::lowercase(path@),
            members@,
        ),
{
    let p = product.to_lowercase();
    let h = path.to_lowercase();
    include_lower(vid, pid, p.as_str(), h.as_str(), members)
}

// -------------------------------------------------------------------- kinds

/// What texts say.
pub open spec fn strs(v: Seq<&'static str>) -> Seq<Seq<char>> {
    v.map_values(|s: &'static str| s@)
}

/// The kinds of peripheral that collections are for.
pub open spec fn kinds(m: Seq<(u16, u16)>) -> Seq<Seq<char>> {
    if some_mouse(m) && some_keyboard(m) {
        seq!["Mouse"@, "Keyboard"@]
    } else if some_mouse(m) {
        seq!["Mouse"@]
    } else if some_keyboard(m) {
        seq!["Keyboard"@]
    } else {
        seq!["Unknown"@]
    }
}

pub fn receiver_kinds(members: &[(u16, u16)]) -> (r: Vec<&'static str>)
    ensures
        strs(r@) == kinds(members@),
{
    let mut out: Vec<&'static str> = Vec::new();
    if has_mouse(members) {
        out.push("Mouse");
    }
    if has_keyboard(members) {
        out.push("Keyboard");
    }
    if out.len() == 0 {
        out.push("Unknown");
    }
    assert(strs(out@) =~= kinds(members@));
    out
}

/// The kinds to show. A dongle often has keyboard and mouse collections both:
/// an ATK receiver is for a mouse, a Sonix one for a keyboard.
pub open spec fn shown_kinds(vid: u16, m: Seq<(u16, u16)>) -> Seq<Seq<char>> {
    if vid == 0x373B && some_mouse(m) {
        seq!["Mouse"@]
    } else if vid == 0x0C45 && some_keyboard(m) {
        seq!["Keyboard"@]
    } else {
        kinds(m)
    }
}

pub fn emit_kinds(vid: u16, members: &[(u16, u16)]) -> (r: Vec<&'static str>)
    ensures
        strs(r@) == shown_kinds(vid, members@),
{
    if vid == 0x373B && has_mouse(members) {
        let out: Vec<&'static str> = vec!["Mouse"];
        assert(strs(out@) =~= shown_kinds(vid, members@));
        out
    } else if vid == 0x0C45 && has_keyboard(members) {
        let out: Vec<&'static str> = vec!["Keyboard"];
        assert(strs(out@) =~= shown_kinds(vid, members@));
        out
    } else {
        receiver_kinds(members)
    }
}

// -------------------------------------------------------------------- names

/// The product name that is shown.
pub open spec fn friendly(vid: u16, pid: u16, product: Seq<char>) -> Seq<char> {
    if vid == 0x0C45 && pid == 0xFEFE {
        "前行者 X87 2.4G"@
    } else if vid == 0x0C45 && pid == 0x8006 {
        "前行者 X87 有线"@
    } else {
        text::trimmed(product)
    }
}

pub fn friendly_product(vid: u16, pid: u16, product: &str) -> (r: String)
    ensures
        r@ == friendly(vid, pid, product@),
{
    if vid == 0x0C45 && pid == 0xFEFE {
        owned("前行者 X87 2.4G")
    } else if vid == 0x0C45 && pid == 0x8006 {
        owned("前行者 X87 有线")
    } else {
        trim(product)
    }
}

/// The word for a kind of peripheral.
pub open spec fn kind_word(kind: Seq<char>) -> Seq<char> {
    if kind == "Keyboard"@ {
        "键盘"@
    } else if kind == "Mouse"@ {
        "鼠标"@
    } else {
        "设备"@
    }
}

/// A product name, given in lower case too, already tells the kind.
pub open spec fn tells_kind(p: Seq<char>, lower: Seq<char>, kind: Seq<char>) -> bool {
    if kind == "Keyboard"@ {
        text::contains(lower, "keyboard"@) || text::contains(p, "键盘"@) || text::contains(
            p,
            "X87"@,
        )
    } else if kind == "Mouse"@ {
        text::contains(lower, "mouse"@) || text::contains(p, "鼠标"@)
    } else {
        true
    }
}

/// The name of a row: the product, followed by the kind unless the product tells
/// it.
pub open spec fn row_name(p: Seq<char>, lower: Seq<char>, kind: Seq<char>) -> Seq<char> {
    if p.len() == 0 {
        "2.4G "@ + kind_word(kind)
    } else if tells_kind(p, lower, kind) {
        p
    } else {
        p + " "@ + kind_word(kind)
    }
}

/// The name of a row, given the product as it is shown and in lower case.
pub fn name_with_kind(p: &str, lower: &str, kind: &str) -> (r: String)
    ensures
        r@ == row_name(p@, lower@, kind@),
{
    let keyboard = same(kind, "Keyboard");
    let mouse = same(kind, "Mouse");
    let word: &str = if keyboard {
        "键盘"
    } else if mouse {
        "鼠标"
    } else {
        "设备"
    };
    let mut out = String::new();
    if p.is_empty() {
        push_text(&mut out, "2.4G ");
        push_text(&mut out, word);
        assert(out@ =~= "2.4G "@ + kind_word(kind@));
        return out;
    }
    let already = if keyboard {
        has_text(lower, "keyboard") || has_text(p, "键盘") || has_text(p, "X87")
    } else if mouse {
        has_text(lower, "mouse") || has_text(p, "鼠标")
    } else {
        true
    };
    push_text(&mut out, p);
    assert(out@ =~= p@);
    if !already {
        push_text(&mut out, " ");
        push_text(&mut out, word);
    }
    out
}

pub fn display_name(product: &str, kind: &str) -> (r: String)
    ensures
        r@ == row_name(text::trimmed(product@), text::lowercase(text::trimmed(product@)), kind@),
{
    display_name_for(0, 0, product, kind)
}

pub fn display_name_for(vid: u16, pid: u16, product: &str, kind: &str) -> (r: String)
    ensures
        r@ == row_name(
            friendly(vid, pid, product@),
            text::lowercase(friendly(vid, pid, product@)),
            kind@,
        ),
{
    let p = friendly_product(vid, pid, product);
    let lower = p.as_str().to_lowercase();
    name_with_kind(p.as_str(), lower.as_str(), kind)
}

// ---------------------------------------------------------------- addresses

/// The address of a HID row: `hid:VVVV:PPPP:Kind`.
pub open spec fn hid_address(vid: u16, pid: u16, kind: Seq<char>) -> Seq<char> {
    "hid:"@ + text::hex(vid as nat, 4) + ":"@ + text::hex(pid as nat, 4) + ":"@ + kind
}

pub fn format_hid_addr(vid: u16, pid: u16, kind: &str) -> (r: String)
    ensures
        r@ == hid_address(vid, pid, kind@),
{
    let mut out = String::new();
    push_text(&mut out, "hid:");
    push_hex(&mut out, vid as u64, 4);
    push_text(&mut out, ":");
    push_hex(&mut out, pid as u64, 4);
    push_text(&mut out, ":");
    push_text(&mut out, kind);
    assert(out@ =~= hid_address(vid, pid, kind@));
    out
}

/// The vendor and product id in a HID row's address.
pub open spec fn parsed_hid_addr(addr: Seq<char>) -> Option<(u16, u16)> {
    match (text::piece(addr, ":"@, 0), text::piece(addr, ":"@, 1), text::piece(addr, ":"@, 2)) {
        (Some(tag), Some(v), Some(p)) => if tag == "hid"@ {
            match (text::parsed_number(v, 16, 0xFFFF), text::parsed_number(p, 16, 0xFFFF)) {
                (Some(vid), Some(pid)) => Some((vid as u16, pid as u16)),
                _ => None,
            }
        } else {
            None
        },
        _ => None,
    }
}

fn parse_hex_u16(s: &str) -> (r: Option<u16>)
    ensures
        match r {
            Some(v) => text::parsed_number(s@, 16, 0xFFFF) == Some(v as int),
            None => text::parsed_number(s@, 16, 0xFFFF) is None,
        },
{
    match parse_number(s, 16, 0xFFFF) {
        Some(v) => Some(v as u16),
        None => None,
    }
}

/// Reads `hid:373B:101B:Mouse`.
pub fn parse_hid_addr(addr: &str) -> (r: Option<(u16, u16)>)
    ensures
        r == parsed_hid_addr(addr@),
{
    proof {
        reveal_strlit(":");
    }
    match split_piece(addr, ":", 0) {
        Some(tag) => if !same(tag.as_str(), "hid") {
            return None;
        },
        None => {
            return None;
        },
    }
    let vid: u16 = match split_piece(addr, ":", 1) {
        Some(t) => match parse_hex_u16(t.as_str()) {
            Some(v) => v,
            None => {
                return None;
            },
        },
        None => {
            return None;
        },
    };
    match split_piece(addr, ":", 2) {
        Some(t) => match parse_hex_u16(t.as_str()) {
            Some(pid) => Some((vid, pid)),
            None => None,
        },
        None => None,
    }
}

/// The four hexadecimal digits behind the first `tag`.
pub open spec fn four_after(s: Seq<char>, tag: Seq<char>) -> Option<Seq<char>> {
    match text::piece(s, tag, 1) {
        Some(rest) => if rest.len() >= 4 && text::all_hex(rest.take(4)) {
            Some(rest.take(4))
        } else {
            None
        },
        None => None,
    }
}

fn after_tag(s: &str, tag: &str) -> (r: Option<String>)
    requires
        tag@.len() > 0,
    ensures
        match r {
            Some(t) => four_after(s@, tag@) == Some(t@),
            None => four_after(s@, tag@) is None,
        },
{
    match split_piece(s, tag, 1) {
        Some(rest) => {
            let v = chars_of(rest.as_str());
            if v.len() < 4 {
                return None;
            }
            let four = from_chars(vstd::slice::slice_subrange(v.as_slice(), 0, 4));
            assert(four@ =~= rest@.take(4));
            if hex_only(four.as_str()) {
                Some(four)
            } else {
                None
            }
        },
        None => None,
    }
}

/// The vendor and product id in a HID interface path.
pub open spec fn path_ids(path: Seq<char>) -> Option<(u16, u16)> {
    let u = text::ascii_upper(path);
    match (four_after(u, "VID_"@), four_after(u, "PID_"@)) {
        (Some(v), Some(p)) => match (
            text::parsed_number(v, 16, 0xFFFF),
            text::parsed_number(p, 16, 0xFFFF),
        ) {
            (Some(vid), Some(pid)) => Some((vid as u16, pid as u16)),
            _ => None,
        },
        _ => None,
    }
}

pub fn vid_pid_from_hid_path(path: &str) -> (r: Option<(u16, u16)>)
    ensures
        r == path_ids(path@),
{
    proof {
        reveal_strlit("VID_");
        reveal_strlit("PID_");
    }
    let u = to_ascii_upper(path);
    match (after_tag(u.as_str(), "VID_"), after_tag(u.as_str(), "PID_")) {
        (Some(v), Some(p)) => match (parse_hex_u16(v.as_str()), parse_hex_u16(p.as_str())) {
            (Some(vid), Some(pid)) => Some((vid, pid)),
            _ => None,
        },
        _ => None,
    }
}

pub fn hid_path_is_x87_24g(path: &str) -> (r: bool)
    ensures
        r == (path_ids(path@) == Some((0x0C45u16, 0xFEFEu16))),
{
    match vid_pid_from_hid_path(path) {
        Some((vid, pid)) => vid == 0x0C45 && pid == 0xFEFE,
        None => false,
    }
}

// --------------------------------------------------------------------- laws

/// The address of a HID row gives back the ids that it was made from.
pub proof fn law_hid_address_reads_back(vid: u16, pid: u16, kind: Seq<char>)
    ensures
        parsed_hid_addr(hid_address(vid, pid, kind)) == Some((vid, pid)),
{
    reveal_strlit("hid:");
    reveal_strlit("hid");
    reveal_strlit(":");
    let s = hid_address(vid, pid, kind);
    let v = text::hex(vid as nat, 4);
    let p = text::hex(pid as nat, 4);
    text::law_hex4_reads_back(vid);
    text::law_hex4_reads_back(pid);
    assert forall|i: int| 0 <= i < 4 implies v[i] != ':' && p[i] != ':' by {
        assert(text::is_hex_digit(v[i]));
        assert(text::is_hex_digit(p[i]));
    }
    let tail2 = p + ":"@ + kind;
    let tail1 = v + ":"@ + tail2;
    assert(s =~= "hid"@ + ":"@ + tail1);
    text::lemma_find_sep("hid"@, ":"@, tail1);
    text::lemma_find_sep(v, ":"@, tail2);
    text::lemma_find_sep(p, ":"@, kind);
    reveal_with_fuel(text::piece, 3);
}

/// Different ids have different digits.
proof fn lemma_hex4_differs(a: u16, b: u16)
    requires
        text::hex(a as nat, 4) == text::hex(b as nat, 4),
    ensures
        a == b,
{
    text::law_hex4_reads_back(a);
    text::law_hex4_reads_back(b);
}

/// The digits of a number stay as they are in upper case, and none of them is a colon.
proof fn lemma_hex_digits(n: nat, width: nat)
    ensures
        text::hex(n, width).len() == width,
        forall|i: int|
            0 <= i < width ==> text::upper_char(#[trigger] text::hex(n, width)[i]) == text::hex(
                n,
                width,
            )[i] && text::hex(n, width)[i] != ':',
    decreases width,
{
    if width > 0 {
        let w = (width - 1) as nat;
        lemma_hex_digits(n / 16, w);
        let s = text::hex(n, width);
        assert forall|i: int| 0 <= i < width implies text::upper_char(#[trigger] s[i]) == s[i]
            && s[i] != ':' by {
            if i < w {
                assert(s[i] == text::hex(n / 16, w)[i]);
            } else {
                assert(s[i] == text::digit_char((n % 16) as int));
            }
        }
    }
}

/// A HID row's address holds a vendor and product id with a colon between them if and
/// only if they are its own, as long as its kind is not taken for an id.
pub proof fn lemma_address_holds_ids(vid: u16, pid: u16, kind: Seq<char>, v: u16, p: u16)
    requires
        forall|i: int| 0 <= i < kind.len() ==> text::upper_char(#[trigger] kind[i]) != ':',
        kind.len() > 0 ==> text::upper_char(kind[0]) != text::hex(p as nat, 4)[0],
    ensures
        text::contains(
            text::ascii_upper(hid_address(vid, pid, kind)),
            text::hex(v as nat, 4) + ":"@ + text::hex(p as nat, 4),
        ) <==> vid == v && pid == p,
{
    reveal_strlit("hid:");
    reveal_strlit(":");
    let hv = text::hex(vid as nat, 4);
    let hp = text::hex(pid as nat, 4);
    let pv = text::hex(v as nat, 4);
    let pp = text::hex(p as nat, 4);
    lemma_hex_digits(vid as nat, 4);
    lemma_hex_digits(pid as nat, 4);
    lemma_hex_digits(v as nat, 4);
    lemma_hex_digits(p as nat, 4);
    let a = hid_address(vid, pid, kind);
    let s = text::ascii_upper(a);
    let pat = pv + ":"@ + pp;
    assert(a.len() == 14 + kind.len());
    assert(a[3] == ':' && a[8] == ':' && a[13] == ':');
    assert forall|i: int| 4 <= i < 8 implies s[i] == hv[i - 4] by {
        assert(a[i] == hv[i - 4]);
    }
    assert forall|i: int| 9 <= i < 13 implies s[i] == hp[i - 9] by {
        assert(a[i] == hp[i - 9]);
    }
    assert forall|i: int| 14 <= i < s.len() implies s[i] == text::upper_char(kind[i - 14]) by {
        assert(a[i] == kind[i - 14]);
    }
    assert(a[0] == 'h' && a[1] == 'i' && a[2] == 'd');
    if vid == v && pid == p {
        assert(s.subrange(4, 13) =~= pat);
        assert(text::occurs_at(s, pat, 4));
    }
    if text::contains(s, pat) {
        let i = choose|i: int| text::occurs_at(s, pat, i);
        let t = s.subrange(i, i + 9);
        assert(t == pat);
        assert(t[4] == ':' && t[4] == s[i + 4]);
        if i == 9 {
            assert(t[5] == s[14] && pat[5] == pp[0]);
        } else {
            assert(i + 4 == 8) by {
                if i + 4 < 3 {
                    assert(s[i + 4] == text::upper_char(a[i + 4]));
                }
                if 4 <= i + 4 < 8 {
                    assert(hv[i] != ':');
                }
                if 9 <= i + 4 < 13 {
                    assert(hp[i - 5] != ':');
                }
                if i + 4 >= 14 {
                    assert(text::upper_char(kind[i - 10]) != ':');
                }
                assert(i + 4 != 3);
            }
            assert(hv =~= pv) by {
                assert forall|k: int| 0 <= k < 4 implies hv[k] == pv[k] by {
                    assert(t[k] == s[4 + k] && pat[k] == pv[k]);
                }
            }
            assert(hp =~= pp) by {
                assert forall|k: int| 0 <= k < 4 implies hp[k] == pp[k] by {
                    assert(t[5 + k] == s[9 + k] && pat[5 + k] == pp[k]);
                }
            }
            lemma_hex4_differs(vid, v);
            lemma_hex4_differs(pid, p);
        }
    }
}

/// The digits of the keyboard's dongle and cable.
pub proof fn lemma_x87_digits()
    ensures
        text::hex(0x0C45, 4) == "0C45"@,
        text::hex(0xFEFE, 4) == "FEFE"@,
        text::hex(0x8006, 4) == "8006"@,
        text::hex(0x0C45, 4) + ":"@ + text::hex(0xFEFE, 4) == "0C45:FEFE"@,
        text::hex(0x0C45, 4) + ":"@ + text::hex(0x8006, 4) == "0C45:8006"@,
{
    reveal_with_fuel(text::hex, 5);
    reveal_strlit("0C45");
    reveal_strlit("FEFE");
    reveal_strlit("8006");
    reveal_strlit(":");
    reveal_strlit("0C45:FEFE");
    reveal_strlit("0C45:8006");
    assert(text::hex(0x0C45, 4) =~= "0C45"@);
    assert(text::hex(0xFEFE, 4) =~= "FEFE"@);
    assert(text::hex(0x8006, 4) =~= "8006"@);
    assert(text::hex(0x0C45, 4) + ":"@ + text::hex(0xFEFE, 4) =~= "0C45:FEFE"@);
    assert(text::hex(0x0C45, 4) + ":"@ + text::hex(0x8006, 4) =~= "0C45:8006"@);
}

/// A kind is one that a receiver's row can have.
pub open spec fn is_row_kind(kind: Seq<char>) -> bool {
    kind == "Mouse"@ || kind == "Keyboard"@ || kind == "Unknown"@
}

/// A row's address tells which receiver it belongs to: it holds the ids of the
/// keyboard's dongle or cable if and only if it was made from them.
pub proof fn lemma_x87_address(vid: u16, pid: u16, kind: Seq<char>)
    requires
        is_row_kind(kind),
    ensures
        text::contains(text::ascii_upper(hid_address(vid, pid, kind)), "0C45:8006"@) <==> vid
            == 0x0C45 && pid == 0x8006,
        text::contains(text::ascii_upper(hid_address(vid, pid, kind)), "0C45:FEFE"@) <==> vid
            == 0x0C45 && pid == 0xFEFE,
{
    reveal_strlit("Mouse");
    reveal_strlit("Keyboard");
    reveal_strlit("Unknown");
    reveal_strlit("FEFE");
    reveal_strlit("8006");
    lemma_x87_digits();
    lemma_address_holds_ids(vid, pid, kind, 0x0C45, 0x8006);
    lemma_address_holds_ids(vid, pid, kind, 0x0C45, 0xFEFE);
}

/// A receiver is for one or two kinds, each once: "Mouse" only if it has a mouse
/// collection, "Keyboard" only if it has a keyboard collection, and "Unknown" only if it
/// has neither. A receiver with a mouse collection is for a mouse unless it is a Sonix
/// one with a keyboard, and one with a keyboard collection is for a keyboard unless it
/// is an ATK one with a mouse.
pub proof fn law_kinds_follow_collections(vid: u16, m: Seq<(u16, u16)>)
    ensures
        ({
            let k = shown_kinds(vid, m);
            let mouse = exists|i: int| 0 <= i < m.len() && #[trigger] m[i] == (1u16, 2u16);
            let keys = exists|i: int|
                0 <= i < m.len() && (#[trigger] m[i] == (1u16, 6u16) || m[i] == (1u16, 7u16));
            &&& 1 <= k.len() <= 2 && k.no_duplicates()
            &&& forall|i: int| 0 <= i < k.len() ==> is_row_kind(#[trigger] k[i])
            &&& k.contains("Mouse"@) <==> mouse && !(vid == 0x0C45 && keys)
            &&& k.contains("Keyboard"@) <==> keys && !(vid == 0x373B && mouse)
            &&& k.contains("Unknown"@) <==> !mouse && !keys
        }),
{
    reveal_strlit("Mouse");
    reveal_strlit("Keyboard");
    reveal_strlit("Unknown");
    assert("Mouse"@.len() == 5 && "Keyboard"@.len() == 8 && "Unknown"@.len() == 7);
    let k = shown_kinds(vid, m);
    let mouse = exists|i: int| 0 <= i < m.len() && #[trigger] m[i] == (1u16, 2u16);
    let keys = exists|i: int|
        0 <= i < m.len() && (#[trigger] m[i] == (1u16, 6u16) || m[i] == (1u16, 7u16));
    assert(some_mouse(m) == mouse) by {
        if some_mouse(m) {
            let i = choose|i: int| 0 <= i < m.len() && mouse_usage(#[trigger] m[i]);
            assert(m[i] == (1u16, 2u16));
        }
        if mouse {
            let i = choose|i: int| 0 <= i < m.len() && #[trigger] m[i] == (1u16, 2u16);
            assert(mouse_usage(m[i]));
        }
    }
    assert(some_keyboard(m) == keys) by {
        if some_keyboard(m) {
            let i = choose|i: int| 0 <= i < m.len() && keyboard_usage(#[trigger] m[i]);
            assert(m[i] == (1u16, 6u16) || m[i] == (1u16, 7u16));
        }
        if keys {
            let i = choose|i: int|
                0 <= i < m.len() && (#[trigger] m[i] == (1u16, 6u16) || m[i] == (1u16, 7u16));
            assert(keyboard_usage(m[i]));
        }
    }
    if k.len() == 2 {
        assert(k[0] == "Mouse"@ && k[1] == "Keyboard"@);
    } else {
        assert(k.len() == 1);
        assert(k.contains(k[0]));
    }
}

/// The receivers of vendors known for them are shown unless their collections are
/// noise; so are others whose name says 2.4 GHz, and those with a mouse or keyboard and a
/// vendor page. Of Sonix only the keyboard's dongle and cable are, unless the name says
/// 2.4 GHz. Noise never is, nor a vendor that is not known without any of these.
pub proof fn law_receivers_are_picked(
    vid: u16,
    pid: u16,
    product: Seq<char>,
    path: Seq<char>,
    m: Seq<(u16, u16)>,
)
    requires
        m.len() > 0,
    ensures
        ({
            let shown = is_receiver(vid, pid, product, path, m);
            let named = text::contains(product, "2.4"@) || text::contains(product, "dongle"@)
                || text::contains(product, "receiver"@) || text::contains(product, "unifying"@)
                || text::contains(product, "lightspeed"@);
            let vendor = exists|i: int| 0 <= i < m.len() && (#[trigger] m[i]).0 >= 0xFF00;
            let input = exists|i: int|
                0 <= i < m.len() && (#[trigger] m[i]).0 == 1 && (m[i].1 == 2 || m[i].1 == 6
                    || m[i].1 == 7);
            let noise = text::contains(product, "virtual"@) || text::contains(product, "hidi2c"@)
                || text::contains(product, "camera"@) || text::contains(product, "webcam"@)
                || text::contains(product, "audio"@) || text::contains(path, "gvinput"@)
                || text::contains(path, "vhf"@) || text::contains(path, "hid_device_system"@)
                || exists|i: int| 0 <= i < m.len() && (#[trigger] m[i]).0 == 0x0D;
            &&& noise ==> !shown
            &&& !noise && named ==> shown
            &&& !noise && (vid == 0x373B || vid == 0x046D || vid == 0x3554 || vid == 0x258A || vid
                == 0x1532 || vid == 0x1038 || vid == 0x0951 || vid == 0x3434 || vid == 0x1EA7 || vid
                == 0x248A || vid == 0x391D) ==> shown
            &&& !noise && vid != 0x0C45 && input && vendor ==> shown
            &&& !noise && vid == 0x0C45 && (pid == 0xFEFE || pid == 0x8006) ==> shown
            &&& shown && vid == 0x0C45 ==> pid == 0xFEFE || pid == 0x8006 || named
            &&& shown && !named && !(input && vendor) && vid != 0x0C45 ==> (vid == 0x373B || vid
                == 0x046D || vid == 0x3554 || vid == 0x258A || vid == 0x1532 || vid == 0x1038 || vid
                == 0x0951 || vid == 0x3434 || vid == 0x1EA7 || vid == 0x248A || vid == 0x391D)
        }),
{
    let k = known_24g_vids();
    assert(k[0] == 0x373B && k[1] == 0x046D && k[2] == 0x3554 && k[3] == 0x258A && k[4] == 0x1532
        && k[5] == 0x1038 && k[6] == 0x0951 && k[7] == 0x3434 && k[8] == 0x1EA7 && k[9] == 0x248A
        && k[10] == 0x391D);
    if known_24g_vid(vid) {
        let i = choose|i: int| 0 <= i < k.len() && k[i] == vid;
        assert(0 <= i < 11);
    }
    if some_page(m, 0x0D, 0x0D) {
        let i = choose|i: int| 0 <= i < m.len() && 0x0D <= (#[trigger] m[i]).0 && m[i].0 <= 0x0D;
        assert(m[i].0 == 0x0D);
    }
    if exists|i: int| 0 <= i < m.len() && (#[trigger] m[i]).0 == 0x0D {
        let i = choose|i: int| 0 <= i < m.len() && (#[trigger] m[i]).0 == 0x0D;
        assert(0x0D <= m[i].0 && m[i].0 <= 0x0D);
    }
    if some_page(m, 0xFF00, 0xFFFF) {
        let i = choose|i: int|
            0 <= i < m.len() && 0xFF00 <= (#[trigger] m[i]).0 && m[i].0 <= 0xFFFF;
        assert(m[i].0 >= 0xFF00);
    }
    if exists|i: int| 0 <= i < m.len() && (#[trigger] m[i]).0 >= 0xFF00 {
        let i = choose|i: int| 0 <= i < m.len() && (#[trigger] m[i]).0 >= 0xFF00;
        assert(0xFF00 <= m[i].0 && m[i].0 <= 0xFFFF);
    }
    if some_mouse(m) {
        let i = choose|i: int| 0 <= i < m.len() && mouse_usage(#[trigger] m[i]);
        assert(m[i].0 == 1 && m[i].1 == 2);
    }
    if some_keyboard(m) {
        let i = choose|i: int| 0 <= i < m.len() && keyboard_usage(#[trigger] m[i]);
        assert(m[i].0 == 1 && (m[i].1 == 6 || m[i].1 == 7));
    }
    if exists|i: int|
        0 <= i < m.len() && (#[trigger] m[i]).0 == 1 && (m[i].1 == 2 || m[i].1 == 6 || m[i].1
            == 7) {
        let i = choose|i: int|
            0 <= i < m.len() && (#[trigger] m[i]).0 == 1 && (m[i].1 == 2 || m[i].1 == 6 || m[i].1
                == 7);
        assert(mouse_usage(m[i]) || keyboard_usage(m[i]));
    }
}

/// A row is named after its product, which stands whole at the beginning; a kind that
/// the product does not tell follows. A product without a name is a 2.4G one. The
/// keyboard that has a dongle and a cable has names of its own.
pub proof fn law_rows_are_named_after_products(
    vid: u16,
    pid: u16,
    product: Seq<char>,
    lower: Seq<char>,
    kind: Seq<char>,
)
    ensures
        vid != 0x0C45 ==> friendly(vid, pid, product) == text::trimmed(product),
        friendly(0x0C45, 0xFEFE, product) == "前行者 X87 2.4G"@,
        friendly(0x0C45, 0x8006, product) == "前行者 X87 有线"@,
        product.len() > 0 ==> text::starts_with(row_name(product, lower, kind), product),
        product.len() == 0 ==> text::starts_with(row_name(product, lower, kind), "2.4G "@),
        product.len() > 0 && kind == "Mouse"@ ==> text::contains(
            row_name(product, lower, kind),
            "鼠标"@,
        ) || text::contains(lower, "mouse"@),
        product.len() > 0 && kind == "Keyboard"@ ==> text::contains(
            row_name(product, lower, kind),
            "键盘"@,
        ) || text::contains(lower, "keyboard"@) || text::contains(product, "X87"@),
        text::contains(lower, "mouse"@) && product.len() > 0 && kind == "Mouse"@ ==> row_name(
            product,
            lower,
            kind,
        ) == product,
        text::contains(lower, "keyboard"@) && product.len() > 0 && kind == "Keyboard"@ ==> row_name(
            product,
            lower,
            kind,
        ) == product,
{
    reveal_strlit("Mouse");
    reveal_strlit("Keyboard");
    assert("Mouse"@.len() == 5 && "Keyboard"@.len() == 8);
    let r = row_name(product, lower, kind);
    let none = Seq::<char>::empty();
    text::law_contains_is_between(r, product);
    text::law_contains_is_between(r, "2.4G "@);
    text::law_contains_is_between(r, "鼠标"@);
    text::law_contains_is_between(r, "键盘"@);
    if product.len() == 0 {
        assert(r == "2.4G "@ + kind_word(kind));
    } else if tells_kind(product, lower, kind) {
        assert(r =~= product + none);
    } else {
        assert(r =~= product + (" "@ + kind_word(kind)));
        assert(r =~= (product + " "@) + kind_word(kind) + none);
    }
}

/// The ids of a receiver are read off any path that holds them, four digits each behind
/// `VID_` and `PID_`, whatever the case of its letters.
pub proof fn law_paths_give_ids(path: Seq<char>, other: Seq<char>)
    requires
        text::same_ignoring_case(path, other),
    ensures
        path_ids(path) == path_ids(other),
{
    text::law_case_is_all_that_may_differ(path, other);
    assert(text::ascii_upper(path) =~= text::ascii_upper(other)) by {
        assert forall|i: int| 0 <= i < path.len() implies text::upper_char(#[trigger] path[i])
            == text::upper_char(other[i]) by {
            assert(path[i] == other[i] || 65 <= path[i] as int <= 90 || 65 <= other[i] as int
                <= 90);
        }
    }
}

} // verus!
