//! HID reports: the commands that ask a receiver for its battery, and what the
//! replies say.

use vstd::prelude::*;

verus! {

// ----------------------------------------------------------- status values

/// The status with which the HID parser reports success.
pub const HIDP_STATUS_SUCCESS: i32 = 0x0011_0000;

/// Whether a Win32 `BOOLEAN` says yes.
pub fn hid_boolean_ok(b: u8) -> (r: bool)
    ensures
        r == (b != 0),
{
    b != 0
}

/// Whether the HID parser reports success.
pub fn hidp_success(status: i32) -> (r: bool)
    ensures
        r == (status == HIDP_STATUS_SUCCESS),
{
    status == HIDP_STATUS_SUCCESS
}

/// The percentage in a usage value that the HID parser read.
pub fn usage_percent(status: i32, value: u32) -> (r: Option<u8>)
    ensures
        r == if status == HIDP_STATUS_SUCCESS && value <= 100 {
            Some(value as u8)
        } else {
            None
        },
{
    if hidp_success(status) && value <= 100 {
        Some(value as u8)
    } else {
        None
    }
}

/// The percentage in a value that a Bluetooth device sent: its first byte.
pub fn battery_from_buffer(bytes: &[u8]) -> (r: Option<u8>)
    ensures
        r == if bytes@.len() > 0 && bytes@[0] <= 100 {
            Some(bytes@[0])
        } else {
            None
        },
{
    if bytes.len() == 0 {
        return None;
    }
    if bytes[0] <= 100 {
        Some(bytes[0])
    } else {
        None
    }
}

// ----------------------------------------------------------------- building

/// The sum of some bytes.
pub open spec fn byte_sum(b: Seq<u8>) -> int
    decreases b.len(),
{
    if b.len() == 0 {
        0
    } else {
        byte_sum(b.drop_last()) + b.last()
    }
}

/// The sum of some bytes, modulo 256.
pub fn sum_bytes(bytes: &[u8]) -> (r: u8)
    ensures
        r == byte_sum(bytes@) % 256,
{
    let mut sum: u8 = 0;
    for i in 0..bytes.len()
        invariant
            sum == byte_sum(bytes@.take(i as int)) % 256,
    {
        assert(bytes@.take(i + 1).drop_last() =~= bytes@.take(i as int));
        sum = sum.wrapping_add(bytes[i]);
    }
    assert(bytes@.take(bytes@.len() as int) =~= bytes@);
    sum
}

/// `n` zero bytes.
pub open spec fn zeros(n: nat) -> Seq<u8> {
    Seq::new(n, |i: int| 0u8)
}

/// The byte that closes a Compx frame: with it the whole frame sums to `0x55`.
pub open spec fn compx_check_byte(prefix: Seq<u8>) -> u8 {
    ((0x55 - byte_sum(prefix)) % 256) as u8
}

pub fn compx_checksum(prefix: &[u8]) -> (r: u8)
    ensures
        r == compx_check_byte(prefix@),
{
    let sum: u8 = sum_bytes(prefix);
    0x55u8.wrapping_sub(sum)
}

/// A Compx battery request of `n` bytes.
pub open spec fn compx_request(report_id: u8, n: nat) -> Seq<u8> {
    let body = zeros((n - 1) as nat).update(0, report_id).update(1, 0x04);
    body.push(compx_check_byte(body))
}

/// The length of a Compx request that is to have `total_len` bytes.
pub open spec fn compx_len(total_len: nat) -> nat {
    if total_len < 8 {
        8
    } else {
        total_len
    }
}

pub fn build_compx_cmd(report_id: u8, total_len: usize) -> (r: Vec<u8>)
    ensures
        r@ == compx_request(report_id, compx_len(total_len as nat)),
{
    let n: usize = if total_len < 8 {
        8
    } else {
        total_len
    };
    let mut report: Vec<u8> = vec![0u8; n - 1];
    report[0] = report_id;
    report[1] = 0x04;
    assert(report@ =~= zeros((n - 1) as nat).update(0, report_id).update(1, 0x04));
    let check: u8 = compx_checksum(&report);
    report.push(check);
    report
}

/// `cmd` filled up with zero bytes to at least `len` bytes.
pub open spec fn padded(cmd: Seq<u8>, len: nat) -> Seq<u8> {
    if cmd.len() < len {
        cmd + zeros((len - cmd.len()) as nat)
    } else {
        cmd
    }
}

pub fn pad_report(cmd: Vec<u8>, len: usize) -> (r: Vec<u8>)
    ensures
        r@ == padded(cmd@, len as nat),
{
    let mut out = cmd;
    if out.len() < len {
        out.resize(len, 0);
        assert(out@ =~= padded(cmd@, len as nat));
    }
    out
}

/// A raw HID command: report id 0, the command byte, then what it carries, as
/// far as there is room.
pub open spec fn qmk_request(total_len: nat, cmd: u8, extra: Seq<u8>) -> Seq<u8> {
    let n = if total_len < 2 {
        2
    } else {
        total_len
    };
    Seq::new(
        n,
        |i: int|
            if i == 1 {
                cmd
            } else if 2 <= i && i - 2 < extra.len() {
                extra[i - 2]
            } else {
                0u8
            },
    )
}

pub fn qmk_cmd(total_len: usize, cmd: u8, extra: &[u8]) -> (r: Vec<u8>)
    ensures
        r@ == qmk_request(total_len as nat, cmd, extra@),
{
    let n: usize = if total_len < 2 {
        2
    } else {
        total_len
    };
    let mut r: Vec<u8> = vec![0u8; n];
    r[1] = cmd;
    let mut i: usize = 0;
    while i < extra.len() && i < n - 2
        invariant
            n >= 2,
            i <= extra@.len(),
            i <= n - 2,
            r@.len() == n,
            forall|k: int|
                0 <= k < n ==> r@[k] == if k == 1 {
                    cmd
                } else if 2 <= k && k - 2 < i {
                    extra@[k - 2]
                } else {
                    0u8
                },
        decreases extra@.len() - i,
    {
        r[2 + i] = extra[i];
        i = i + 1;
    }
    assert(r@ =~= qmk_request(total_len as nat, cmd, extra@));
    r
}

/// The request for a Sonix status report.
pub open spec fn sonix_request(output_len: nat) -> Seq<u8> {
    qmk_request(
        if output_len < 3 {
            3
        } else {
            output_len
        },
        0x0F,
        seq![0x01u8],
    )
}

/// The host request with the header of the status that the dongle pushes by
/// itself (`0F 01`). A bare `0F 00` would be answered from a stale cache.
pub fn sonix_status_request(output_len: u16) -> (r: Vec<u8>)
    ensures
        r@ == sonix_request(output_len as nat),
{
    let n: usize = if output_len < 3 {
        3
    } else {
        output_len as usize
    };
    let mut poke: Vec<u8> = vec![0u8; n];
    poke[1] = 0x0F;
    poke[2] = 0x01;
    assert(poke@ =~= sonix_request(output_len as nat));
    poke
}

// ------------------------------------------------------------------ parsing

/// Compx / VGN cell voltages in mV; one step of the table is worth 5 %.
pub open spec fn voltage_table() -> Seq<int> {
    seq![
        3050,
        3420,
        3480,
        3540,
        3600,
        3660,
        3720,
        3760,
        3800,
        3840,
        3880,
        3920,
        3940,
        3960,
        3980,
        4000,
        4020,
        4040,
        4060,
        4080,
        4110,
    ]
}

/// The step of the table with index `i` holds the voltage `v`.
pub open spec fn in_step(v: int, i: int) -> bool {
    0 <= i < 20 && voltage_table()[i] <= v < voltage_table()[i + 1]
}

/// The level of a voltage within step `i`: 5 % per step, linear in between,
/// rounded to the nearest whole number.
pub open spec fn step_level(v: int, i: int) -> int {
    let low = voltage_table()[i];
    let width = voltage_table()[i + 1] - low;
    5 * i + (10 * (v - low) + width) / (2 * width)
}

/// The percentage that a cell voltage stands for.
pub open spec fn percent_of_voltage(v: int, charging: bool) -> int {
    if v >= 4110 {
        if charging {
            99
        } else {
            100
        }
    } else if v < 3050 {
        0
    } else {
        let level = step_level(v, choose|i: int| in_step(v, i));
        if level == 0 || level == 15 {
            level + 1
        } else {
            level
        }
    }
}

proof fn lemma_table_steps(v: int, i: int, j: int)
    requires
        in_step(v, i),
        in_step(v, j),
    ensures
        i == j,
{
}

fn table_entry(i: usize) -> (r: u16)
    requires
        i < 21,
    ensures
        r == voltage_table()[i as int],
        3050 <= r <= 4110,
{
    let table: [u16; 21] = [
        3050,
        3420,
        3480,
        3540,
        3600,
        3660,
        3720,
        3760,
        3800,
        3840,
        3880,
        3920,
        3940,
        3960,
        3980,
        4000,
        4020,
        4040,
        4060,
        4080,
        4110,
    ];
    table[i]
}

/// Compx / VGN firmware voltage table (mV) → 0..=100.
pub fn voltage_to_percent(voltage_mv: u16, charging: bool) -> (r: u8)
    ensures
        r == percent_of_voltage(voltage_mv as int, charging),
        r <= 100,
{
    if voltage_mv >= 4110 {
        return if charging {
            99
        } else {
            100
        };
    }
    if voltage_mv < 3050 {
        return 0;
    }
    let mut i: usize = 0;
    while i < 19 && table_entry(i + 1) <= voltage_mv
        invariant
            i < 20,
            voltage_table()[i as int] <= voltage_mv < 4110,
        decreases 20 - i,
    {
        i = i + 1;
    }
    assert(in_step(voltage_mv as int, i as int));
    proof {
        let k = choose|k: int| in_step(voltage_mv as int, k);
        lemma_table_steps(voltage_mv as int, i as int, k);
    }
    let low: u32 = table_entry(i) as u32;
    let width: u32 = table_entry(i + 1) as u32 - low;
    let up: u32 = voltage_mv as u32 - low;
    let part: u32 = (10 * up + width) / (2 * width);
    assert(part <= 5) by (nonlinear_arith)
        requires
            part == (10 * up + width) / (2 * width),
            up < width,
            width > 0,
    ;
    let level: u32 = 5 * (i as u32) + part;
    if level == 0 || level == 15 {
        (level + 1) as u8
    } else {
        level as u8
    }
}

/// What a Compx battery reply says: the percentage and whether it is charging.
pub open spec fn compx_battery(r: Seq<u8>) -> Option<(u8, bool)> {
    if r.len() < 8 || (r[0] != 0x08 && r[0] != 0x13) || r[1] != 0x04 {
        None
    } else {
        let charging = r[7] != 0;
        let voltage = if r.len() >= 10 {
            r[8] * 256 + r[9]
        } else {
            0
        };
        if 1 <= r[6] && r[6] <= 100 {
            Some((r[6], charging))
        } else if voltage == 0 {
            None
        } else {
            Some((percent_of_voltage(voltage, charging) as u8, charging))
        }
    }
}

/// Reads a frame `08 04 00 00 00 02 PCT CHG VHI VLO 00.. CS`. The percentage
/// that the peripheral reports wins over the one that its cell voltage gives,
/// because the voltage table saturates.
pub fn parse_compx_battery(report: &[u8]) -> (r: Option<(u8, bool)>)
    ensures
        r == compx_battery(report@),
        r matches Some(p) ==> p.0 <= 100,
{
    if report.len() < 8 {
        return None;
    }
    let id: u8 = report[0];
    if id != 0x08 && id != 0x13 {
        return None;
    }
    if report[1] != 0x04 {
        return None;
    }
    let charging = report[7] != 0;
    let raw: u8 = report[6];
    if 1 <= raw && raw <= 100 {
        return Some((raw, charging));
    }
    let voltage: u16 = if report.len() >= 10 {
        report[8] as u16 * 256 + report[9] as u16
    } else {
        0
    };
    if voltage == 0 {
        return None;
    }
    Some((voltage_to_percent(voltage, charging), charging))
}

/// The byte of a report at index `i`, as a percentage.
pub open spec fn percent_at(r: Seq<u8>, i: int) -> Option<u8> {
    if i < r.len() && r[i] <= 100 {
        Some(r[i])
    } else {
        None
    }
}

/// What a Sonix report says of the battery. Only the `0F 01 FE` frame carries a
/// live value.
pub open spec fn sonix_battery(r: Seq<u8>) -> Option<u8> {
    if r.len() >= 5 && r[0] == 0 && r[1] == 0x0F && r[2] == 0x01 && r[3] == 0xFE {
        percent_at(r, 4)
    } else if r.len() >= 4 && r[0] == 0x0F && r[1] == 0x01 && r[2] == 0xFE {
        percent_at(r, 3)
    } else {
        None
    }
}

fn read_percent(r: &[u8], i: usize) -> (p: Option<u8>)
    ensures
        p == percent_at(r@, i as int),
{
    if i < r.len() && r[i] <= 100 {
        Some(r[i])
    } else {
        None
    }
}

/// Reads a Sonix 65-byte vendor status. Only the subtype `0F 01 FE PCT` carries
/// the live battery: the byte in the periodic heartbeat `0F 01 01` is a cache
/// that the dongle froze.
pub fn parse_sonix_battery(report: &[u8]) -> (r: Option<u8>)
    ensures
        r == sonix_battery(report@),
        r matches Some(p) ==> p <= 100,
{
    if report.len() >= 5 && report[0] == 0 && report[1] == 0x0F && report[2] == 0x01 && report[3]
        == 0xFE {
        return read_percent(report, 4);
    }
    if report.len() >= 4 && report[0] == 0x0F && report[1] == 0x01 && report[2] == 0xFE {
        return read_percent(report, 3);
    }
    None
}

/// What an EWEADN battery reply says: `00 20 <echo> 00 PCT 00... CS`, where the
/// last byte is the sum of the others, or 0 where there is no checksum.
pub open spec fn eweadn_battery(r: Seq<u8>) -> Option<u8> {
    if r.len() >= 6 && r[0] == 0x00 && r[1] == 0x20 && r[4] <= 100 && (r.last() == byte_sum(
        r.drop_last(),
    ) % 256 || r.last() == 0) {
        Some(r[4])
    } else {
        None
    }
}

pub fn parse_eweadn_battery(report: &[u8]) -> (r: Option<u8>)
    ensures
        r == eweadn_battery(report@),
        r matches Some(p) ==> p <= 100,
{
    if report.len() < 6 || report[0] != 0x00 || report[1] != 0x20 {
        return None;
    }
    let pct: u8 = report[4];
    if pct > 100 {
        return None;
    }
    let last: usize = report.len() - 1;
    let prefix: &[u8] = vstd::slice::slice_subrange(report, 0, last);
    assert(prefix@ =~= report@.drop_last());
    let sum: u8 = sum_bytes(prefix);
    if sum == report[last] || report[last] == 0 {
        Some(pct)
    } else {
        None
    }
}

/// A report without the report id 0 before it.
pub open spec fn without_id(r: Seq<u8>) -> Seq<u8> {
    if r.len() > 1 && r[0] == 0 {
        r.skip(1)
    } else {
        r
    }
}

/// What a QMK wireless reply says of the battery: command `0xA4`, then the
/// percentage.
pub open spec fn qmk_battery(r: Seq<u8>) -> Option<u8> {
    let b = without_id(r);
    if b.len() > 0 && b[0] == 0xA4 {
        percent_at(b, 1)
    } else {
        None
    }
}

/// The index at which a report's command stands.
fn body_start(report: &[u8]) -> (r: usize)
    ensures
        r <= 1,
        r <= report@.len(),
        without_id(report@) == report@.skip(r as int),
{
    if report.len() > 1 && report[0] == 0 {
        1
    } else {
        assert(report@.skip(0) =~= report@);
        0
    }
}

pub fn parse_qmk_battery(report: &[u8]) -> (r: Option<u8>)
    ensures
        r == qmk_battery(report@),
        r matches Some(p) ==> p <= 100,
{
    let at: usize = body_start(report);
    if at < report.len() && report[at] == 0xA4 {
        read_percent(report, at + 1)
    } else {
        None
    }
}

/// A report is a VIA protocol version: command `0x01`, then a version that is
/// not zero. A Sonix `0F` that landed on the wrong collection is none.
pub open spec fn is_via_proto(r: Seq<u8>) -> bool {
    let b = without_id(r);
    b.len() >= 3 && b[0] == 0x01 && b[1] != 0x0F && (b[1] != 0 || b[2] != 0)
}

pub fn looks_like_via_proto(buf: &[u8]) -> (r: bool)
    ensures
        r == is_via_proto(buf@),
{
    let at: usize = body_start(buf);
    buf.len() - at >= 3 && buf[at] == 0x01 && buf[at + 1] != 0x0F && (buf[at + 1] != 0 || buf[at
        + 2] != 0)
}

/// A report holds a byte that is not zero.
pub open spec fn some_data(b: Seq<u8>) -> bool {
    exists|i: int| 0 <= i < b.len() && b[i] != 0
}

/// Whether a report holds a byte that is not zero.
pub fn has_data(buf: &[u8]) -> (r: bool)
    ensures
        r == some_data(buf@),
{
    for i in 0..buf.len()
        invariant
            forall|j: int| 0 <= j < i ==> buf@[j] == 0,
    {
        if buf[i] != 0 {
            assert(buf@[i as int] != 0);
            return true;
        }
    }
    false
}

// --------------------------------------------------------------------- laws

proof fn lemma_byte_sum_push(b: Seq<u8>, x: u8)
    ensures
        byte_sum(b.push(x)) == byte_sum(b) + x,
{
    assert(b.push(x).drop_last() =~= b);
}

/// With its check byte a frame sums to `0x55`.
pub proof fn law_compx_frame_sums_to_55(prefix: Seq<u8>)
    ensures
        byte_sum(prefix.push(compx_check_byte(prefix))) % 256 == 0x55,
{
    lemma_byte_sum_push(prefix, compx_check_byte(prefix));
}

/// A Compx request carries its report id and the battery command, and sums to
/// `0x55`.
pub proof fn law_compx_request_is_well_formed(report_id: u8, total_len: nat)
    ensures
        ({
            let r = compx_request(report_id, compx_len(total_len));
            &&& r.len() == compx_len(total_len)
            &&& r[0] == report_id
            &&& r[1] == 0x04
            &&& byte_sum(r) % 256 == 0x55
        }),
{
    let n = compx_len(total_len);
    let body = zeros((n - 1) as nat).update(0, report_id).update(1, 0x04);
    law_compx_frame_sums_to_55(body);
}

/// The voltage table never reads less for a higher voltage, as long as the cell
/// is not charging.
pub proof fn law_voltage_percent_is_monotone(v: int, w: int)
    requires
        v <= w,
    ensures
        percent_of_voltage(v, false) <= percent_of_voltage(w, false),
        0 <= percent_of_voltage(v, false) <= 100,
        0 <= percent_of_voltage(v, true) <= 100,
{
    lemma_voltage_range(v);
    lemma_voltage_range(w);
    if 3050 <= v && w < 4110 {
        let i = choose|i: int| in_step(v, i);
        let j = choose|j: int| in_step(w, j);
        lemma_step_level(v, i);
        lemma_step_level(w, j);
        if i == j {
            let low = voltage_table()[i];
            let width = voltage_table()[i + 1] - low;
            assert((10 * (v - low) + width) / (2 * width) <= (10 * (w - low) + width) / (2 * width))
                by (nonlinear_arith)
                requires
                    v <= w,
                    width > 0,
            ;
        }
    }
}

/// Some step of the table holds a voltage within the table.
proof fn lemma_step_exists(v: int, i: int)
    requires
        0 <= i < 20,
        voltage_table()[i] <= v < 4110,
    ensures
        exists|k: int| in_step(v, k),
    decreases 20 - i,
{
    if v < voltage_table()[i + 1] {
        assert(in_step(v, i));
    } else {
        assert(i < 19);
        lemma_step_exists(v, i + 1);
    }
}

proof fn lemma_step_level(v: int, i: int)
    requires
        in_step(v, i),
    ensures
        5 * i <= step_level(v, i) <= 5 * i + 5,
{
    let low = voltage_table()[i];
    let width = voltage_table()[i + 1] - low;
    assert(width > 0);
    assert(0 <= (10 * (v - low) + width) / (2 * width) <= 5) by (nonlinear_arith)
        requires
            0 <= v - low < width,
    ;
}

proof fn lemma_voltage_range(v: int)
    ensures
        0 <= percent_of_voltage(v, false) <= 100,
        3050 <= v < 4110 ==> in_step(v, choose|i: int| in_step(v, i)),
{
    if 3050 <= v < 4110 {
        lemma_step_exists(v, 0);
        let i = choose|i: int| in_step(v, i);
        lemma_step_level(v, i);
    }
}

/// Whatever a receiver sends, the battery that is read from it is a percentage.
pub proof fn law_batteries_are_percentages(r: Seq<u8>)
    ensures
        compx_battery(r) matches Some(p) ==> p.0 <= 100,
        sonix_battery(r) matches Some(p) ==> p <= 100,
        eweadn_battery(r) matches Some(p) ==> p <= 100,
        qmk_battery(r) matches Some(p) ==> p <= 100,
{
    if r.len() >= 10 {
        lemma_voltage_range(r[8] * 256 + r[9]);
    }
}

/// The periodic Sonix heartbeat is never read as a battery value.
pub proof fn law_heartbeat_is_no_battery(r: Seq<u8>)
    requires
        r.len() >= 5,
        r[0] == 0,
        r[1] == 0x0F,
        r[2] == 0x01,
        r[3] != 0xFE,
    ensures
        sonix_battery(r) is None,
{
}

/// A Compx reply says its battery in the seventh byte, and whether it is charging in the
/// eighth; where the seventh is no percentage, or zero, the cell voltage tells it, if
/// there is one. Any other report says nothing.
pub proof fn law_compx_reply_tells_battery(r: Seq<u8>)
    ensures
        ({
            let frame = r.len() >= 8 && (r[0] == 0x08 || r[0] == 0x13) && r[1] == 0x04;
            let told = r[6] != 0 && r[6] <= 100;
            let cell = r.len() >= 10 && (r[8] != 0 || r[9] != 0);
            &&& compx_battery(r) is Some <==> frame && (told || cell)
            &&& frame && told ==> compx_battery(r) == Some((r[6], r[7] != 0))
            &&& frame && !told && cell ==> compx_battery(r) == Some(
                (percent_of_voltage(r[8] * 256 + r[9], r[7] != 0) as u8, r[7] != 0),
            )
        }),
{
}

/// A cell below 3050 mV is empty and one from 4110 mV on is full, or nearly so while it
/// charges; in between each step of the firmware's table is worth 5 %.
pub proof fn law_voltage_steps(v: int, charging: bool)
    ensures
        ({
            let p = percent_of_voltage(v, charging);
            &&& v < 3050 ==> p == 0
            &&& 3050 <= v < 3420 ==> 1 <= p <= 5
            &&& 3420 <= v < 3480 ==> 5 <= p <= 10
            &&& 3480 <= v < 3540 ==> 10 <= p <= 16 && p != 15
            &&& 3540 <= v < 3600 ==> 16 <= p <= 20
            &&& 3600 <= v < 3660 ==> 20 <= p <= 25
            &&& 3660 <= v < 3720 ==> 25 <= p <= 30
            &&& 3720 <= v < 3760 ==> 30 <= p <= 35
            &&& 3760 <= v < 3800 ==> 35 <= p <= 40
            &&& 3800 <= v < 3840 ==> 40 <= p <= 45
            &&& 3840 <= v < 3880 ==> 45 <= p <= 50
            &&& 3880 <= v < 3920 ==> 50 <= p <= 55
            &&& 3920 <= v < 3940 ==> 55 <= p <= 60
            &&& 3940 <= v < 3960 ==> 60 <= p <= 65
            &&& 3960 <= v < 3980 ==> 65 <= p <= 70
            &&& 3980 <= v < 4000 ==> 70 <= p <= 75
            &&& 4000 <= v < 4020 ==> 75 <= p <= 80
            &&& 4020 <= v < 4040 ==> 80 <= p <= 85
            &&& 4040 <= v < 4060 ==> 85 <= p <= 90
            &&& 4060 <= v < 4080 ==> 90 <= p <= 95
            &&& 4080 <= v < 4110 ==> 95 <= p <= 100
            &&& v >= 4110 && !charging ==> p == 100
            &&& v >= 4110 && charging ==> p == 99
        }),
{
    if 3050 <= v < 4110 {
        lemma_step_exists(v, 0);
        let i = choose|i: int| in_step(v, i);
        lemma_step_level(v, i);
        assert(voltage_table()[i] <= v < voltage_table()[i + 1]);
        assert(i == 0 || i == 1 || i == 2 || i == 3 || i == 4 || i == 5 || i == 6 || i == 7 || i
            == 8 || i == 9 || i == 10 || i == 11 || i == 12 || i == 13 || i == 14 || i == 15 || i
            == 16 || i == 17 || i == 18 || i == 19);
    }
}

/// A Sonix status frame tells its battery, with or without a report id before it; a value
/// that is no percentage says nothing, and neither does any other frame.
pub proof fn law_sonix_frame_tells_battery(r: Seq<u8>)
    ensures
        r.len() >= 4 && r[0] == 0x0F && r[1] == 0x01 && r[2] == 0xFE ==> {
            &&& sonix_battery(r) == if r[3] <= 100 {
                Some(r[3])
            } else {
                None
            }
            &&& sonix_battery(seq![0u8] + r) == sonix_battery(r)
        },
        sonix_battery(r) is Some ==> {
            ||| r.len() >= 4 && r[0] == 0x0F && r[1] == 0x01 && r[2] == 0xFE
            ||| r.len() >= 5 && r[0] == 0 && r[1] == 0x0F && r[2] == 0x01 && r[3] == 0xFE
        },
{
    let s = seq![0u8] + r;
    if r.len() >= 4 {
        assert(s[1] == r[0] && s[2] == r[1] && s[3] == r[2] && s[4] == r[3]);
    }
}

/// A QMK battery reply tells its battery, with or without a report id before it.
pub proof fn law_qmk_reply_tells_battery(b: Seq<u8>)
    ensures
        b.len() >= 2 && b[0] == 0xA4 ==> {
            &&& qmk_battery(b) == if b[1] <= 100 {
                Some(b[1])
            } else {
                None
            }
            &&& qmk_battery(seq![0u8] + b) == qmk_battery(b)
        },
        b.len() > 0 && b[0] != 0 && b[0] != 0xA4 ==> qmk_battery(b) is None && qmk_battery(
            seq![0u8] + b,
        ) is None,
{
    let s = seq![0u8] + b;
    assert(s.skip(1) =~= b);
}

/// An EWEADN reply that its checksum confirms, or that has none, tells its battery; one
/// that its checksum contradicts tells nothing.
pub proof fn law_eweadn_checksum_counts(head: Seq<u8>, last: u8)
    requires
        head.len() >= 5,
        head[0] == 0x00,
        head[1] == 0x20,
        head[4] <= 100,
    ensures
        eweadn_battery(head.push((byte_sum(head) % 256) as u8)) == Some(head[4]),
        eweadn_battery(head.push(0)) == Some(head[4]),
        last != 0 && last != byte_sum(head) % 256 ==> eweadn_battery(head.push(last)) is None,
{
    assert(head.push((byte_sum(head) % 256) as u8).drop_last() =~= head);
    assert(head.push(0).drop_last() =~= head);
    assert(head.push(last).drop_last() =~= head);
    lemma_byte_sum_nonnegative(head);
}

proof fn lemma_byte_sum_nonnegative(b: Seq<u8>)
    ensures
        byte_sum(b) >= 0,
    decreases b.len(),
{
    if b.len() > 0 {
        lemma_byte_sum_nonnegative(b.drop_last());
    }
}

/// The sum of bytes is that of its parts, and of a byte that byte.
pub proof fn law_byte_sum_adds(a: Seq<u8>, b: Seq<u8>, x: u8)
    ensures
        byte_sum(a + b) == byte_sum(a) + byte_sum(b),
        byte_sum(seq![x]) == x,
    decreases b.len(),
{
    assert(seq![x].drop_last() =~= Seq::empty());
    assert(byte_sum(seq![x].drop_last()) == 0);
    if b.len() == 0 {
        assert(a + b =~= a);
    } else {
        assert((a + b).drop_last() =~= a + b.drop_last());
        law_byte_sum_adds(a, b.drop_last(), x);
    }
}

/// A Compx request has eight bytes at least, and as many as it should otherwise; between
/// the command and the check byte it holds zeros.
pub proof fn law_compx_request_is_as_long_as_asked(report_id: u8, total_len: nat, i: int)
    ensures
        ({
            let r = compx_request(report_id, compx_len(total_len));
            &&& total_len >= 8 ==> r.len() == total_len
            &&& total_len < 8 ==> r.len() == 8
            &&& 2 <= i < r.len() - 1 ==> r[i] == 0
        }),
{
}

/// A raw HID command begins with report id 0 and the command, carries what it should
/// behind them, and is filled up with zeros to the length of the report.
pub proof fn law_raw_command_carries_data(total_len: nat, cmd: u8, extra: Seq<u8>, i: int)
    ensures
        ({
            let r = qmk_request(total_len, cmd, extra);
            &&& r.len() >= 2 && r.len() >= total_len && (r.len() == 2 || r.len() == total_len)
            &&& r[0] == 0 && r[1] == cmd
            &&& 0 <= i < extra.len() && i + 2 < r.len() ==> r[i + 2] == extra[i]
            &&& extra.len() + 2 <= i < r.len() ==> r[i] == 0
        }),
{
}

/// The request for a status is `00 0F 01`, filled up with zeros.
pub proof fn law_status_request_is_0f01(output_len: nat, i: int)
    ensures
        ({
            let r = sonix_request(output_len);
            &&& r.len() >= 3 && r.len() >= output_len && (r.len() == 3 || r.len() == output_len)
            &&& r[0] == 0 && r[1] == 0x0F && r[2] == 0x01
            &&& 3 <= i < r.len() ==> r[i] == 0
        }),
{
}

/// A report that is filled up keeps what it had, and gets zeros behind it.
pub proof fn law_padding_keeps_command(cmd: Seq<u8>, len: nat, i: int)
    ensures
        ({
            let r = padded(cmd, len);
            &&& r.len() >= len && r.len() >= cmd.len() && (r.len() == len || r.len() == cmd.len())
            &&& r.take(cmd.len() as int) == cmd
            &&& cmd.len() <= i < r.len() ==> r[i] == 0
        }),
{
    assert(padded(cmd, len).take(cmd.len() as int) =~= cmd);
}

/// A VIA keyboard's protocol version is recognised with or without a report id before it,
/// as long as it is not zero; a Sonix status is not taken for one.
pub proof fn law_via_version_is_recognised(b: Seq<u8>)
    requires
        b.len() >= 3,
        b[0] != 0,
    ensures
        is_via_proto(b) == is_via_proto(seq![0u8] + b),
        is_via_proto(b) ==> b[0] == 0x01,
        b[0] == 0x01 && b[1] != 0x0F && (b[1] != 0 || b[2] != 0) ==> is_via_proto(b),
        b[1] == 0x0F || (b[1] == 0 && b[2] == 0) ==> !is_via_proto(b),
{
    assert((seq![0u8] + b).skip(1) =~= b);
}

} // verus!
