//! Experiments on receivers, for diagnosis from the command line: which collections
//! they look at, what they send, and which replies are worth a line.

use vstd::prelude::*;

use crate::hid::{HidDevice, HidView};
use crate::hidwatch;
use crate::hidwatch::push_ids;
use crate::queries;
use crate::queries::{Reply, wait_ms};
use crate::reports;
use crate::reports::{build_compx_cmd, compx_checksum, has_data, pad_report, qmk_cmd};
use crate::text;
use crate::text::{owned, push_decimal, push_hex, push_text, same, to_hex};

verus! {

/// How a step talks to a collection.
#[derive(Clone, Copy, Debug, PartialEq, Eq, Structural)]
pub enum How {
    /// Open the collection anew, send through the control pipe, then read.
    FreshSetThenRead,
    /// Read while the command is sent.
    Transact,
    /// Send through the control pipe, then read.
    SetThenRead,
    /// Send through the output pipe, then read.
    WriteThenRead,
    /// Send through the control pipe.
    SetOnly,
    /// Send through the output pipe.
    WriteOnly,
    ReadOnly,
    /// Get the feature report that the first byte names.
    GetFeature,
    /// Set that feature report, then get it.
    SetThenGetFeature,
}

/// A step of an experiment.
#[derive(Debug)]
pub struct Step {
    pub how: How,
    pub label: String,
    /// What is sent.
    pub cmd: Vec<u8>,
    /// How many bytes are read.
    pub read: usize,
    /// How long a reply is waited for, in milliseconds.
    pub ms: u32,
}

/// What a `Step` says.
#[verifier::ext_equal]
pub struct StepView {
    pub how: How,
    pub label: Seq<char>,
    pub cmd: Seq<u8>,
    pub read: int,
    pub ms: u32,
}

impl View for Step {
    type V = StepView;

    open spec fn view(&self) -> StepView {
        StepView {
            how: self.how,
            label: self.label@,
            cmd: self.cmd@,
            read: self.read as int,
            ms: self.ms,
        }
    }
}

/// What each step of a plan says.
pub open spec fn plan_view(steps: Seq<Step>) -> Seq<StepView> {
    steps.map_values(|s: Step| s@)
}

fn plan(steps: &mut Vec<Step>, how: How, label: String, cmd: Vec<u8>, read: usize, ms: u32)
    ensures
        plan_view(final(steps)@) == plan_view(old(steps)@).push(
            StepView { how, label: label@, cmd: cmd@, read: read as int, ms },
        ),
{
    let s = Step { how, label, cmd, read, ms };
    steps.push(s);
    assert(plan_view(steps@) =~= plan_view(old(steps)@).push(s@));
}

fn larger(a: usize, b: usize) -> (r: usize)
    ensures
        r == queries::more_of(a as int, b as int),
{
    if a < b {
        b
    } else {
        a
    }
}

/// A report of `n` bytes with some bytes in front, as far as there is room.
pub open spec fn led_by(n: int, front: Seq<u8>) -> Seq<u8> {
    Seq::new(
        n as nat,
        |i: int|
            if i < front.len() {
                front[i]
            } else {
                0u8
            },
    )
}

fn report_of(n: usize, front: &[u8]) -> (r: Vec<u8>)
    ensures
        r@ == led_by(n as int, front@),
{
    let mut r: Vec<u8> = vec![0u8; n];
    let mut i: usize = 0;
    while i < n && i < front.len()
        invariant
            i <= n,
            i <= front@.len(),
            r@.len() == n,
            forall|k: int|
                0 <= k < n ==> r@[k] == if k < i {
                    front@[k]
                } else {
                    0u8
                },
        decreases n - i,
    {
        r[i] = front[i];
        i = i + 1;
    }
    assert(r@ =~= led_by(n as int, front@));
    r
}

/// A step that reads while it sends.
pub open spec fn transact(label: Seq<char>, cmd: Seq<u8>, input: int) -> StepView {
    StepView {
        how: How::Transact,
        label,
        cmd,
        read: queries::more_of(input, cmd.len() as int),
        ms: 1200,
    }
}

fn plan_transact(steps: &mut Vec<Step>, label: &str, cmd: Vec<u8>, input: usize)
    ensures
        plan_view(final(steps)@) == plan_view(old(steps)@).push(
            transact(label@, cmd@, input as int),
        ),
{
    let n: usize = larger(input, cmd.len());
    plan(steps, How::Transact, owned(label), cmd, n, 1200);
}

/// A Compx battery request, filled up to the length of the output reports.
pub open spec fn compx_filled(id: u8, n: int, out: int) -> Seq<u8> {
    reports::padded(
        reports::compx_request(id, reports::compx_len(n as nat)),
        queries::more_of(out, n) as nat,
    )
}

fn compx_cmd(id: u8, n: usize, out: usize) -> (r: Vec<u8>)
    ensures
        r@ == compx_filled(id, n as int, out as int),
{
    pad_report(build_compx_cmd(id, n), larger(out, n))
}

/// A raw HID command, filled up to the length of the output reports.
pub open spec fn qmk_filled(n: int, out: int, cmd: u8, extra: Seq<u8>) -> Seq<u8> {
    reports::qmk_request(queries::more_of(out, n) as nat, cmd, extra)
}

// ------------------------------------------------------------------------- spy

/// A collection is looked at by `spy`: a vendor's own of the mouse or the keyboard.
pub open spec fn is_spied(d: HidView) -> bool {
    d.access == "R/W"@ && d.usage_page >= 0xFF00 && (d.vid == 0x373B || d.vid == 0x0C45)
}

/// The steps for collections with reports of 17 and 20 bytes.
pub open spec fn spy_compx(i: int, o: int) -> Seq<StepView> {
    (if i == 17 || o == 17 {
        seq![transact("compx-08-04"@, compx_filled(0x08, 17, o), i)]
    } else {
        Seq::empty()
    }) + (if i == 20 || o == 20 {
        seq![transact("compx-13-04"@, compx_filled(0x13, 20, o), i)]
    } else {
        Seq::empty()
    })
}

/// The steps for collections with reports of 49 bytes.
pub open spec fn spy_49(i: int, o: int) -> Seq<StepView> {
    if i == 49 || o == 49 {
        seq![
            transact("rid0-cmd04"@, led_by(queries::more_of(o, 49), seq![0u8, 0x04u8]), i),
            transact("compx-49"@, compx_filled(0x08, 49, o), i),
        ]
    } else {
        Seq::empty()
    }
}

/// The steps for collections with reports of 33 bytes.
pub open spec fn spy_33(i: int, o: int) -> Seq<StepView> {
    if i == 33 || o == 33 {
        seq![
            transact("via-proto"@, qmk_filled(33, o, 0x01, Seq::empty()), i),
            transact("qmk-a4"@, qmk_filled(33, o, 0xA4, Seq::empty()), i),
            transact("via-custom"@, qmk_filled(33, o, 0x08, seq![0u8, 0u8]), i),
            transact("via-kbval"@, qmk_filled(33, o, 0x02, seq![0x01u8]), i),
        ]
    } else {
        Seq::empty()
    }
}

/// The steps for collections with reports of 65 bytes.
pub open spec fn spy_65(i: int, o: int) -> Seq<StepView> {
    if i == 65 || o == 65 {
        let n = queries::more_of(o, 65);
        seq![
            transact("via65-proto"@, qmk_filled(65, o, 0x01, Seq::empty()), i),
            transact("qmk65-a4"@, qmk_filled(65, o, 0xA4, Seq::empty()), i),
            transact("cmd-0f"@, led_by(n, seq![0u8, 0x0Fu8]), i),
            transact("cmd-04"@, led_by(n, seq![0u8, 0x04u8]), i),
            transact("unique-99"@, led_by(n, seq![0u8, 0x99u8, 0x88u8, 0x77u8]), i),
        ]
    } else {
        Seq::empty()
    }
}

/// The last steps for collections with reports of 33 and 49 bytes.
pub open spec fn spy_more(i: int, o: int) -> Seq<StepView> {
    (if i == 33 || o == 33 {
        seq![
            transact("via-custom-ch5"@, qmk_filled(33, o, 0x08, seq![0x05u8, 0x01u8]), i),
            transact("via-custom-ch0"@, qmk_filled(33, o, 0x08, seq![0x00u8, 0x01u8]), i),
        ]
    } else {
        Seq::empty()
    }) + (if i == 49 || o == 49 {
        seq![transact("compx-49-set"@, compx_filled(0x08, 49, o), i)]
    } else {
        Seq::empty()
    })
}

/// A Compx request for the settings memory.
pub open spec fn eeprom_request(out: int) -> Seq<u8> {
    let n = queries::more_of(out, 17);
    let body = led_by(n, seq![0x08u8, 0x08u8, 0u8, 0u8, 0u8, 0x01u8]);
    body.update(16, reports::compx_check_byte(body.take(16)))
}

/// The steps that end the experiment with a mouse.
pub open spec fn spy_mouse_end(vid: u16, i: int, o: int) -> Seq<StepView> {
    if vid == 0x373B && i == 17 {
        let cmd = compx_filled(0x08, 17, o);
        seq![
            StepView { how: How::SetThenRead, label: "set-then-read"@, cmd, read: i, ms: 1000 },
            StepView { how: How::WriteThenRead, label: "write-then-read"@, cmd, read: i, ms: 1000 },
            StepView {
                how: How::SetThenRead,
                label: "eeprom-set-then-read"@,
                cmd: eeprom_request(o),
                read: i,
                ms: 1000,
            },
        ]
    } else {
        Seq::empty()
    }
}

/// The step that begins the experiment with a mouse.
pub open spec fn spy_mouse_start(vid: u16, i: int, o: int) -> Seq<StepView> {
    if vid == 0x373B && i == 17 {
        seq![
            StepView {
                how: How::FreshSetThenRead,
                label: "fresh-set-then-read"@,
                cmd: compx_filled(0x08, 17, o),
                read: i,
                ms: 1500,
            },
        ]
    } else {
        Seq::empty()
    }
}

/// The step that ends the experiment with a keyboard.
pub open spec fn spy_keyboard_end(vid: u16, i: int) -> Seq<StepView> {
    if vid == 0x0C45 && i == 65 {
        seq![
            StepView {
                how: How::ReadOnly,
                label: "long-unsolicited"@,
                cmd: Seq::empty(),
                read: i,
                ms: 2500,
            },
        ]
    } else {
        Seq::empty()
    }
}

/// The steps of `spy`. A collection without input reports is passed over.
pub open spec fn spy_plan(vid: u16, i: int, o: int) -> Seq<StepView> {
    if i == 0 {
        Seq::empty()
    } else {
        spy_mouse_start(vid, i, o) + spy_compx(i, o) + spy_49(i, o) + spy_33(i, o) + spy_65(i, o)
            + spy_more(i, o) + spy_mouse_end(vid, i, o) + spy_keyboard_end(vid, i)
    }
}

fn plan_compx(steps: &mut Vec<Step>, i: usize, o: usize)
    ensures
        plan_view(final(steps)@) == plan_view(old(steps)@) + spy_compx(i as int, o as int),
{
    if i == 17 || o == 17 {
        plan_transact(steps, "compx-08-04", compx_cmd(0x08, 17, o), i);
    }
    if i == 20 || o == 20 {
        plan_transact(steps, "compx-13-04", compx_cmd(0x13, 20, o), i);
    }
    assert(plan_view(steps@) =~= plan_view(old(steps)@) + spy_compx(i as int, o as int));
}

fn plan_49(steps: &mut Vec<Step>, i: usize, o: usize)
    ensures
        plan_view(final(steps)@) == plan_view(old(steps)@) + spy_49(i as int, o as int),
{
    if i == 49 || o == 49 {
        let front: [u8; 2] = [0, 0x04];
        assert(front@ =~= seq![0u8, 0x04u8]);
        plan_transact(steps, "rid0-cmd04", report_of(larger(o, 49), &front), i);
        plan_transact(steps, "compx-49", compx_cmd(0x08, 49, o), i);
    }
    assert(plan_view(steps@) =~= plan_view(old(steps)@) + spy_49(i as int, o as int));
}

fn plan_33(steps: &mut Vec<Step>, i: usize, o: usize)
    ensures
        plan_view(final(steps)@) == plan_view(old(steps)@) + spy_33(i as int, o as int),
{
    if i == 33 || o == 33 {
        let n: usize = larger(o, 33);
        let none: [u8; 0] = [];
        let zero: [u8; 2] = [0, 0];
        let one: [u8; 1] = [0x01];
        assert(none@ =~= Seq::empty());
        assert(zero@ =~= seq![0u8, 0u8]);
        assert(one@ =~= seq![0x01u8]);
        plan_transact(steps, "via-proto", qmk_cmd(n, 0x01, &none), i);
        plan_transact(steps, "qmk-a4", qmk_cmd(n, 0xA4, &none), i);
        plan_transact(steps, "via-custom", qmk_cmd(n, 0x08, &zero), i);
        plan_transact(steps, "via-kbval", qmk_cmd(n, 0x02, &one), i);
    }
    assert(plan_view(steps@) =~= plan_view(old(steps)@) + spy_33(i as int, o as int));
}

fn plan_65(steps: &mut Vec<Step>, i: usize, o: usize)
    ensures
        plan_view(final(steps)@) == plan_view(old(steps)@) + spy_65(i as int, o as int),
{
    if i == 65 || o == 65 {
        let n: usize = larger(o, 65);
        let none: [u8; 0] = [];
        let f0: [u8; 2] = [0, 0x0F];
        let f4: [u8; 2] = [0, 0x04];
        let f9: [u8; 4] = [0, 0x99, 0x88, 0x77];
        assert(none@ =~= Seq::empty());
        assert(f0@ =~= seq![0u8, 0x0Fu8]);
        assert(f4@ =~= seq![0u8, 0x04u8]);
        assert(f9@ =~= seq![0u8, 0x99u8, 0x88u8, 0x77u8]);
        plan_transact(steps, "via65-proto", qmk_cmd(n, 0x01, &none), i);
        plan_transact(steps, "qmk65-a4", qmk_cmd(n, 0xA4, &none), i);
        plan_transact(steps, "cmd-0f", report_of(n, &f0), i);
        plan_transact(steps, "cmd-04", report_of(n, &f4), i);
        plan_transact(steps, "unique-99", report_of(n, &f9), i);
    }
    assert(plan_view(steps@) =~= plan_view(old(steps)@) + spy_65(i as int, o as int));
}

fn plan_more(steps: &mut Vec<Step>, i: usize, o: usize)
    ensures
        plan_view(final(steps)@) == plan_view(old(steps)@) + spy_more(i as int, o as int),
{
    if i == 33 || o == 33 {
        let n: usize = larger(o, 33);
        let c5: [u8; 2] = [0x05, 0x01];
        let c0: [u8; 2] = [0x00, 0x01];
        assert(c5@ =~= seq![0x05u8, 0x01u8]);
        assert(c0@ =~= seq![0x00u8, 0x01u8]);
        plan_transact(steps, "via-custom-ch5", qmk_cmd(n, 0x08, &c5), i);
        plan_transact(steps, "via-custom-ch0", qmk_cmd(n, 0x08, &c0), i);
    }
    if i == 49 || o == 49 {
        plan_transact(steps, "compx-49-set", compx_cmd(0x08, 49, o), i);
    }
    assert(plan_view(steps@) =~= plan_view(old(steps)@) + spy_more(i as int, o as int));
}

fn eeprom_cmd(o: usize) -> (r: Vec<u8>)
    ensures
        r@ == eeprom_request(o as int),
{
    let n: usize = larger(o, 17);
    let front: [u8; 6] = [0x08, 0x08, 0, 0, 0, 0x01];
    assert(front@ =~= seq![0x08u8, 0x08u8, 0u8, 0u8, 0u8, 0x01u8]);
    let mut r = report_of(n, &front);
    let check: u8 = compx_checksum(vstd::slice::slice_subrange(r.as_slice(), 0, 16));
    assert(r@.subrange(0, 16) =~= r@.take(16));
    r[16] = check;
    r
}

fn plan_ends(steps: &mut Vec<Step>, vid: u16, i: usize, o: usize)
    ensures
        plan_view(final(steps)@) == plan_view(old(steps)@) + spy_mouse_end(
            vid,
            i as int,
            o as int,
        ) + spy_keyboard_end(vid, i as int),
{
    let ghost before = plan_view(steps@);
    if vid == 0x373B && i == 17 {
        plan(
            steps,
            How::SetThenRead,
            owned("set-then-read"),
            compx_cmd(0x08, 17, o),
            i,
            1000,
        );
        plan(
            steps,
            How::WriteThenRead,
            owned("write-then-read"),
            compx_cmd(0x08, 17, o),
            i,
            1000,
        );
        plan(steps, How::SetThenRead, owned("eeprom-set-then-read"), eeprom_cmd(o), i, 1000);
    }
    if vid == 0x0C45 && i == 65 {
        let none: Vec<u8> = Vec::new();
        assert(none@ =~= Seq::empty());
        plan(steps, How::ReadOnly, owned("long-unsolicited"), none, i, 2500);
    }
    assert(plan_view(steps@) =~= before + spy_mouse_end(vid, i as int, o as int)
        + spy_keyboard_end(vid, i as int));
}

/// The live experiment on the vendors' own collections of a mouse and a keyboard:
/// the steps for a collection, nothing where it is not looked at.
pub fn spy(d: &HidDevice) -> (r: Option<Vec<Step>>)
    ensures
        match r {
            Some(steps) => is_spied(d@) && plan_view(steps@) == spy_plan(
                d.vid,
                d.input_len as int,
                d.output_len as int,
            ),
            None => !is_spied(d@),
        },
{
    if !same(d.access, "R/W") || d.usage_page < 0xFF00 || (d.vid != 0x373B && d.vid != 0x0C45) {
        return None;
    }
    let i: usize = d.input_len as usize;
    let o: usize = d.output_len as usize;
    let mut steps: Vec<Step> = Vec::new();
    assert(plan_view(steps@) =~= Seq::empty());
    if i == 0 {
        return Some(steps);
    }
    if d.vid == 0x373B && i == 17 {
        plan(
            &mut steps,
            How::FreshSetThenRead,
            owned("fresh-set-then-read"),
            compx_cmd(0x08, 17, o),
            i,
            1500,
        );
    }
    assert(plan_view(steps@) =~= spy_mouse_start(d.vid, i as int, o as int));
    plan_compx(&mut steps, i, o);
    plan_49(&mut steps, i, o);
    plan_33(&mut steps, i, o);
    plan_65(&mut steps, i, o);
    plan_more(&mut steps, i, o);
    plan_ends(&mut steps, d.vid, i, o);
    assert(plan_view(steps@) =~= spy_plan(d.vid, i as int, o as int));
    Some(steps)
}

// ------------------------------------------------------------------------ scan

/// A collection is one of the keyboard's wireless dongle that can be written to.
pub open spec fn is_open_dongle(d: HidView) -> bool {
    d.vid == 0x0C45 && d.pid == 0xFEFE && d.access == "R/W"@
}

/// A step that sends through the output pipe, then reads.
pub open spec fn write_read(label: Seq<char>, cmd: Seq<u8>, read: int) -> StepView {
    StepView { how: How::WriteThenRead, label, cmd, read, ms: 1500 }
}

fn plan_write_read(steps: &mut Vec<Step>, label: &str, cmd: Vec<u8>, read: usize)
    ensures
        plan_view(final(steps)@) == plan_view(old(steps)@).push(
            write_read(label@, cmd@, read as int),
        ),
{
    plan(steps, How::WriteThenRead, owned(label), cmd, read, 1500);
}

/// The steps for the dongle's status collection.
pub open spec fn scan_status(page: u16, read: int, o: int) -> Seq<StepView> {
    if page == 0xFF59 && o >= 2 {
        let poke = led_by(o, seq![0u8, 0x0Fu8]);
        seq![
            StepView { how: How::SetOnly, label: "SetOutput 0x0F"@, cmd: poke, read: 0, ms: 0 },
            StepView { how: How::WriteOnly, label: "WriteFile 0x0F"@, cmd: poke, read: 0, ms: 0 },
            StepView {
                how: How::ReadOnly,
                label: "after-0f"@,
                cmd: Seq::empty(),
                read,
                ms: 5000,
            },
            write_read("aa55-0f"@, led_by(o, seq![0xAAu8, 0x55u8, 0x0Fu8]), read),
            write_read("aafa-03"@, led_by(o, seq![0xAAu8, 0xFAu8, 0x03u8]), read),
            write_read("via-a4-b0"@, led_by(o, seq![0xA4u8]), read),
            write_read("cmd-a4"@, reports::qmk_request(o as nat, 0xA4, Seq::empty()), read),
        ]
    } else {
        Seq::empty()
    }
}

/// The steps for the dongle's VIA collection.
pub open spec fn scan_via(page: u16, read: int, o: int) -> Seq<StepView> {
    if page == 0xFF60 && o >= 2 {
        seq![
            write_read("via01-write"@, reports::qmk_request(o as nat, 0x01, Seq::empty()), read),
            write_read("via-a4-write"@, reports::qmk_request(o as nat, 0xA4, Seq::empty()), read),
            write_read("a4-at0"@, led_by(o, seq![0xA4u8]), read),
            write_read("01-at0"@, led_by(o, seq![0x01u8]), read),
        ]
    } else {
        Seq::empty()
    }
}

/// The steps that get the feature reports `0` to `n - 1`.
pub open spec fn get_features(len: int, n: nat) -> Seq<StepView> {
    Seq::new(
        n,
        |id: int|
            StepView {
                how: How::GetFeature,
                label: text::hex(id as nat, 2),
                cmd: led_by(len, seq![id as u8]),
                read: len,
                ms: 0,
            },
    )
}

fn plan_features(steps: &mut Vec<Step>, len: usize, n: u8)
    ensures
        plan_view(final(steps)@) == plan_view(old(steps)@) + get_features(len as int, n as nat),
{
    let ghost before = plan_view(steps@);
    let ghost all = get_features(len as int, n as nat);
    assert(before + all.take(0) =~= before);
    for id in 0..n
        invariant
            all == get_features(len as int, n as nat),
            plan_view(steps@) == before + all.take(id as int),
    {
        let front: [u8; 1] = [id];
        assert(front@ =~= seq![id]);
        let mut label = String::new();
        push_hex(&mut label, id as u64, 2);
        assert(label@ =~= text::hex(id as nat, 2));
        plan(steps, How::GetFeature, label, report_of(len, &front), len, 0);
        assert(all[id as int].cmd == led_by(len as int, seq![id]));
        assert(plan_view(steps@) =~= before + all.take(id + 1));
    }
    assert(all.take(n as int) =~= all);
}

/// The steps of `scan`. Where nothing can be sent, the collection is only listened
/// to.
pub open spec fn scan_plan(page: u16, i: int, o: int, feat: int) -> Seq<StepView> {
    let read = queries::more_of(i, 1);
    let listen = StepView {
        how: How::ReadOnly,
        label: "unsolicited"@,
        cmd: Seq::empty(),
        read,
        ms: if i == 65 {
            800
        } else {
            200
        },
    };
    if o == 0 {
        seq![listen]
    } else {
        seq![listen] + scan_status(page, read, o) + scan_via(page, read, o) + (if feat > 0 {
            get_features(feat, 17)
        } else {
            Seq::empty()
        })
    }
}

fn plan_scan_status(steps: &mut Vec<Step>, read: usize, o: usize)
    requires
        o >= 2,
    ensures
        plan_view(final(steps)@) == plan_view(old(steps)@) + scan_status(
            0xFF59,
            read as int,
            o as int,
        ),
{
    let ghost before = plan_view(steps@);
    let f0: [u8; 2] = [0, 0x0F];
    let f1: [u8; 3] = [0xAA, 0x55, 0x0F];
    let f2: [u8; 3] = [0xAA, 0xFA, 0x03];
    let f3: [u8; 1] = [0xA4];
    let none: [u8; 0] = [];
    assert(f0@ =~= seq![0u8, 0x0Fu8]);
    assert(f1@ =~= seq![0xAAu8, 0x55u8, 0x0Fu8]);
    assert(f2@ =~= seq![0xAAu8, 0xFAu8, 0x03u8]);
    assert(f3@ =~= seq![0xA4u8]);
    assert(none@ =~= Seq::empty());
    let empty: Vec<u8> = Vec::new();
    assert(empty@ =~= Seq::empty());
    plan(steps, How::SetOnly, owned("SetOutput 0x0F"), report_of(o, &f0), 0, 0);
    plan(steps, How::WriteOnly, owned("WriteFile 0x0F"), report_of(o, &f0), 0, 0);
    plan(steps, How::ReadOnly, owned("after-0f"), empty, read, 5000);
    plan_write_read(steps, "aa55-0f", report_of(o, &f1), read);
    plan_write_read(steps, "aafa-03", report_of(o, &f2), read);
    plan_write_read(steps, "via-a4-b0", report_of(o, &f3), read);
    plan_write_read(steps, "cmd-a4", qmk_cmd(o, 0xA4, &none), read);
    assert(plan_view(steps@) =~= before + scan_status(0xFF59, read as int, o as int));
}

fn plan_scan_via(steps: &mut Vec<Step>, read: usize, o: usize)
    requires
        o >= 2,
    ensures
        plan_view(final(steps)@) == plan_view(old(steps)@) + scan_via(
            0xFF60,
            read as int,
            o as int,
        ),
{
    let ghost before = plan_view(steps@);
    let f1: [u8; 1] = [0x01];
    let f4: [u8; 1] = [0xA4];
    let none: [u8; 0] = [];
    assert(f1@ =~= seq![0x01u8]);
    assert(f4@ =~= seq![0xA4u8]);
    assert(none@ =~= Seq::empty());
    plan_write_read(steps, "via01-write", qmk_cmd(o, 0x01, &none), read);
    plan_write_read(steps, "via-a4-write", qmk_cmd(o, 0xA4, &none), read);
    plan_write_read(steps, "a4-at0", report_of(o, &f4), read);
    plan_write_read(steps, "01-at0", report_of(o, &f1), read);
    assert(plan_view(steps@) =~= before + scan_via(0xFF60, read as int, o as int));
}

/// The search of the wireless dongle for any command that returns data: the steps
/// for a collection, nothing where it is not looked at. The status collection's
/// commands take three bytes.
pub fn scan(d: &HidDevice) -> (r: Option<Vec<Step>>)
    requires
        is_open_dongle(d@) && d.usage_page == 0xFF59 ==> d.output_len != 2,
    ensures
        match r {
            Some(steps) => is_open_dongle(d@) && plan_view(steps@) == scan_plan(
                d.usage_page,
                d.input_len as int,
                d.output_len as int,
                d.feature_len as int,
            ),
            None => !is_open_dongle(d@),
        },
{
    if d.vid != 0x0C45 || d.pid != 0xFEFE || !same(d.access, "R/W") {
        return None;
    }
    let read: usize = larger(d.input_len as usize, 1);
    let o: usize = d.output_len as usize;
    let mut steps: Vec<Step> = Vec::new();
    assert(plan_view(steps@) =~= Seq::empty());
    let none: Vec<u8> = Vec::new();
    assert(none@ =~= Seq::empty());
    plan(
        &mut steps,
        How::ReadOnly,
        owned("unsolicited"),
        none,
        read,
        if d.input_len == 65 {
            800
        } else {
            200
        },
    );
    let ghost listen = plan_view(steps@);
    if o > 0 {
        if d.usage_page == 0xFF59 && o >= 2 {
            plan_scan_status(&mut steps, read, o);
        }
        if d.usage_page == 0xFF60 && o >= 2 {
            plan_scan_via(&mut steps, read, o);
        }
        if d.feature_len > 0 {
            plan_features(&mut steps, d.feature_len as usize, 17);
        }
    }
    assert(plan_view(steps@) =~= scan_plan(
        d.usage_page,
        d.input_len as int,
        o as int,
        d.feature_len as int,
    ));
    Some(steps)
}

// ------------------------------------------------------------------- feature probe

/// A collection is looked at by `feat_probe`.
pub open spec fn has_features(d: HidView) -> bool {
    is_open_dongle(d) && d.feature_len != 0
}

/// The steps that set and get the feature reports `0` to `n - 1`.
pub open spec fn set_features(len: int, n: nat) -> Seq<StepView> {
    get_features(len, n).map_values(
        |s: StepView| StepView { how: How::SetThenGetFeature, ..s },
    )
}

fn plan_set_features(steps: &mut Vec<Step>, len: usize, n: u8)
    ensures
        plan_view(final(steps)@) == plan_view(old(steps)@) + set_features(len as int, n as nat),
{
    let ghost before = plan_view(steps@);
    let ghost all = set_features(len as int, n as nat);
    assert(before + all.take(0) =~= before);
    for id in 0..n
        invariant
            all == set_features(len as int, n as nat),
            plan_view(steps@) == before + all.take(id as int),
    {
        let front: [u8; 1] = [id];
        assert(front@ =~= seq![id]);
        let mut label = String::new();
        push_hex(&mut label, id as u64, 2);
        assert(label@ =~= text::hex(id as nat, 2));
        plan(steps, How::SetThenGetFeature, label, report_of(len, &front), len, 0);
        assert(all[id as int].cmd == led_by(len as int, seq![id]));
        assert(plan_view(steps@) =~= before + all.take(id + 1));
    }
    assert(all.take(n as int) =~= all);
}

/// The steps of `feat_probe`.
pub open spec fn feat_plan(page: u16, feat: int) -> Seq<StepView> {
    let len = queries::more_of(feat, 2);
    get_features(len, 33) + (if page == 0xFF60 {
        set_features(len, 17)
    } else {
        Seq::empty()
    })
}

/// The look at the dongle's feature reports: the steps for a collection, nothing
/// where it is not looked at.
pub fn feat_probe(d: &HidDevice) -> (r: Option<Vec<Step>>)
    ensures
        match r {
            Some(steps) => has_features(d@) && plan_view(steps@) == feat_plan(
                d.usage_page,
                d.feature_len as int,
            ),
            None => !has_features(d@),
        },
{
    if d.vid != 0x0C45 || d.pid != 0xFEFE || !same(d.access, "R/W") || d.feature_len == 0 {
        return None;
    }
    let len: usize = larger(d.feature_len as usize, 2);
    let mut steps: Vec<Step> = Vec::new();
    assert(plan_view(steps@) =~= Seq::empty());
    plan_features(&mut steps, len, 33);
    if d.usage_page == 0xFF60 {
        plan_set_features(&mut steps, len, 17);
    }
    assert(plan_view(steps@) =~= feat_plan(d.usage_page, d.feature_len as int));
    Some(steps)
}

/// A feature report holds more than its id.
pub open spec fn is_filled(b: Seq<u8>) -> bool {
    exists|i: int| 1 <= i < b.len() && b[i] != 0
}

/// Whether a feature report of `feat_probe` is worth a line.
pub fn is_feature_filled(b: &[u8]) -> (r: bool)
    ensures
        r == is_filled(b@),
{
    let mut i: usize = 1;
    while i < b.len()
        invariant
            i >= 1,
            forall|j: int| 1 <= j < i && j < b@.len() ==> b@[j] == 0,
        decreases b@.len() - i,
    {
        if b[i] != 0 {
            assert(b@[i as int] != 0);
            return true;
        }
        i = i + 1;
    }
    false
}

/// A feature report holds something that is neither zero nor its id.
pub open spec fn is_telling(b: Seq<u8>, id: u8) -> bool {
    exists|i: int| 0 <= i < b.len() && b[i] != 0 && b[i] != id
}

/// Whether a feature report of `scan` is worth a line.
pub fn is_feature_telling(b: &[u8], id: u8) -> (r: bool)
    ensures
        r == is_telling(b@, id),
{
    for i in 0..b.len()
        invariant
            forall|j: int| 0 <= j < i ==> b@[j] == 0 || b@[j] == id,
    {
        if b[i] != 0 && b[i] != id {
            assert(b@[i as int] != 0 && b@[i as int] != id);
            return true;
        }
    }
    false
}

// ----------------------------------------------------------------------- scan two

/// A collection is looked at by `scan2`: the dongle's status collection.
pub open spec fn is_status_collection(d: HidView) -> bool {
    d.vid == 0x0C45 && d.pid == 0xFEFE && d.usage_page == 0xFF59 && d.output_len != 0
}

pub fn scans_status(d: &HidDevice) -> (r: bool)
    ensures
        r == is_status_collection(d@),
{
    d.vid == 0x0C45 && d.pid == 0xFEFE && d.usage_page == 0xFF59 && d.output_len != 0
}

/// Command `k` of `scan2`: each first byte, then each byte behind `0F`.
pub open spec fn scan2_step(k: int, i: int, o: int) -> StepView {
    StepView {
        how: How::WriteThenRead,
        label: if k < 256 {
            "cmd[1]="@ + text::hex(k as nat, 2)
        } else {
            "cmd 0F "@ + text::hex((k - 256) as nat, 2)
        },
        cmd: if k < 256 {
            led_by(o, seq![0u8, k as u8])
        } else {
            led_by(o, seq![0u8, 0x0Fu8, (k - 256) as u8])
        },
        read: queries::more_of(i, 1),
        ms: 60,
    }
}

/// The search of the dongle's whole command space: step `k` of 512. The commands
/// take three bytes.
pub fn scan2(d: &HidDevice, k: u16) -> (r: Step)
    requires
        k < 512,
        d.output_len >= 3,
    ensures
        r@ == scan2_step(k as int, d.input_len as int, d.output_len as int),
{
    let o: usize = d.output_len as usize;
    let read: usize = larger(d.input_len as usize, 1);
    let r = if k < 256 {
        let b: u8 = k as u8;
        let front: [u8; 2] = [0, b];
        assert(front@ =~= seq![0u8, b]);
        let mut label = owned("cmd[1]=");
        push_hex(&mut label, k as u64, 2);
        Step { how: How::WriteThenRead, label, cmd: report_of(o, &front), read, ms: 60 }
    } else {
        let b: u8 = (k - 256) as u8;
        let front: [u8; 3] = [0, 0x0F, b];
        assert(front@ =~= seq![0u8, 0x0Fu8, b]);
        let mut label = owned("cmd 0F ");
        push_hex(&mut label, b as u64, 2);
        Step { how: How::WriteThenRead, label, cmd: report_of(o, &front), read, ms: 60 }
    };
    assert(r@ =~= scan2_step(k as int, d.input_len as int, d.output_len as int));
    r
}

/// A report is the heartbeat of the dongle.
pub open spec fn is_heartbeat(b: Seq<u8>) -> bool {
    b.len() >= 5 && b.take(5) =~= seq![0x00u8, 0x0Fu8, 0x01u8, 0x01u8, 0x11u8]
}

/// Whether a reply of `scan2` is worth a line: it holds data, and is not the
/// heartbeat.
pub fn is_interesting(b: &[u8]) -> (r: bool)
    ensures
        r == (reports::some_data(b@) && !is_heartbeat(b@)),
{
    let beat = b.len() >= 5 && b[0] == 0x00 && b[1] == 0x0F && b[2] == 0x01 && b[3] == 0x01 && b[4]
        == 0x11;
    proof {
        if b@.len() >= 5 {
            let t = b@.take(5);
            assert(t[0] == b@[0] && t[1] == b@[1] && t[2] == b@[2] && t[3] == b@[3] && t[4]
                == b@[4]);
        }
    }
    has_data(b) && !beat
}

// ------------------------------------------------------------------------ VIA probe

/// A collection is looked at by `via_probe`.
pub open spec fn is_via_collection(d: HidView) -> bool {
    d.vid == 0x0C45 && d.usage_page == 0xFF60 && (d.input_len == 33 || d.input_len == 65)
}

/// A step of `via_probe`.
pub open spec fn via_step(label: Seq<char>, cmd: u8, extra: Seq<u8>, i: int, o: int) -> StepView {
    StepView {
        how: How::WriteThenRead,
        label,
        cmd: qmk_filled(33, o, cmd, extra),
        read: queries::more_of(i, 2),
        ms: 800,
    }
}

fn plan_via(steps: &mut Vec<Step>, label: String, cmd: u8, extra: &[u8], i: usize, o: usize)
    ensures
        plan_view(final(steps)@) == plan_view(old(steps)@).push(
            via_step(label@, cmd, extra@, i as int, o as int),
        ),
{
    plan(
        steps,
        How::WriteThenRead,
        label,
        qmk_cmd(larger(o, 33), cmd, extra),
        larger(i, 2),
        800,
    );
}

/// The steps for keyboard values `0` to `15`.
pub open spec fn via_values(i: int, o: int) -> Seq<StepView> {
    Seq::new(
        16,
        |k: int| via_step("kbval-02-"@ + text::hex(k as nat, 2), 0x02, seq![k as u8], i, o),
    )
}

/// The steps for value 0 of channels `0` to `15`.
pub open spec fn via_channels(i: int, o: int) -> Seq<StepView> {
    Seq::new(
        16,
        |k: int|
            via_step("custom-08-ch"@ + text::hex(k as nat, 2), 0x08, seq![k as u8, 0x00u8], i, o),
    )
}

/// The steps for value 1 of channels `0` to `7`.
pub open spec fn via_channels_one(i: int, o: int) -> Seq<StepView> {
    Seq::new(
        8,
        |k: int|
            via_step(
                "custom-08-ch"@ + text::hex(k as nat, 2) + "-v01"@,
                0x08,
                seq![k as u8, 0x01u8],
                i,
                o,
            ),
    )
}

/// The steps of `via_probe`.
pub open spec fn via_plan(i: int, o: int) -> Seq<StepView> {
    seq![via_step("proto-01"@, 0x01, Seq::empty(), i, o)] + via_values(i, o) + via_channels(i, o)
        + via_channels_one(i, o) + seq![
        via_step("qmk-a4"@, 0xA4, Seq::empty(), i, o),
        via_step("q20"@, 0x20, seq![0x01u8, 0x00u8], i, o),
        via_step("q20b"@, 0x20, Seq::empty(), i, o),
    ]
}

fn plan_via_values(steps: &mut Vec<Step>, i: usize, o: usize)
    ensures
        plan_view(final(steps)@) == plan_view(old(steps)@) + via_values(i as int, o as int),
{
    let ghost before = plan_view(steps@);
    let ghost all = via_values(i as int, o as int);
    assert(before + all.take(0) =~= before);
    for k in 0u8..16
        invariant
            all == via_values(i as int, o as int),
            plan_view(steps@) == before + all.take(k as int),
    {
        let extra: [u8; 1] = [k];
        assert(extra@ =~= seq![k]);
        let mut label = owned("kbval-02-");
        push_hex(&mut label, k as u64, 2);
        plan_via(steps, label, 0x02, &extra, i, o);
        assert(plan_view(steps@) =~= before + all.take(k + 1));
    }
    assert(all.take(16) =~= all);
}

fn plan_via_channels(steps: &mut Vec<Step>, i: usize, o: usize)
    ensures
        plan_view(final(steps)@) == plan_view(old(steps)@) + via_channels(i as int, o as int),
{
    let ghost before = plan_view(steps@);
    let ghost all = via_channels(i as int, o as int);
    assert(before + all.take(0) =~= before);
    for k in 0u8..16
        invariant
            all == via_channels(i as int, o as int),
            plan_view(steps@) == before + all.take(k as int),
    {
        let extra: [u8; 2] = [k, 0x00];
        assert(extra@ =~= seq![k, 0x00u8]);
        let mut label = owned("custom-08-ch");
        push_hex(&mut label, k as u64, 2);
        plan_via(steps, label, 0x08, &extra, i, o);
        assert(plan_view(steps@) =~= before + all.take(k + 1));
    }
    assert(all.take(16) =~= all);
}

fn plan_via_channels_one(steps: &mut Vec<Step>, i: usize, o: usize)
    ensures
        plan_view(final(steps)@) == plan_view(old(steps)@) + via_channels_one(
            i as int,
            o as int,
        ),
{
    let ghost before = plan_view(steps@);
    let ghost all = via_channels_one(i as int, o as int);
    assert(before + all.take(0) =~= before);
    for k in 0u8..8
        invariant
            all == via_channels_one(i as int, o as int),
            plan_view(steps@) == before + all.take(k as int),
    {
        let extra: [u8; 2] = [k, 0x01];
        assert(extra@ =~= seq![k, 0x01u8]);
        let mut label = owned("custom-08-ch");
        push_hex(&mut label, k as u64, 2);
        push_text(&mut label, "-v01");
        plan_via(steps, label, 0x08, &extra, i, o);
        assert(plan_view(steps@) =~= before + all.take(k + 1));
    }
    assert(all.take(8) =~= all);
}

/// The search of a dongle's VIA commands for a live battery: the steps for a
/// collection, nothing where it is not looked at.
pub fn via_probe(d: &HidDevice) -> (r: Option<Vec<Step>>)
    ensures
        match r {
            Some(steps) => is_via_collection(d@) && plan_view(steps@) == via_plan(
                d.input_len as int,
                d.output_len as int,
            ),
            None => !is_via_collection(d@),
        },
{
    if d.vid != 0x0C45 || d.usage_page != 0xFF60 || (d.input_len != 33 && d.input_len != 65) {
        return None;
    }
    let i: usize = d.input_len as usize;
    let o: usize = d.output_len as usize;
    let none: [u8; 0] = [];
    let on: [u8; 2] = [0x01, 0x00];
    assert(none@ =~= Seq::empty());
    assert(on@ =~= seq![0x01u8, 0x00u8]);
    let mut steps: Vec<Step> = Vec::new();
    assert(plan_view(steps@) =~= Seq::empty());
    plan_via(&mut steps, owned("proto-01"), 0x01, &none, i, o);
    plan_via_values(&mut steps, i, o);
    plan_via_channels(&mut steps, i, o);
    plan_via_channels_one(&mut steps, i, o);
    plan_via(&mut steps, owned("qmk-a4"), 0xA4, &none, i, o);
    plan_via(&mut steps, owned("q20"), 0x20, &on, i, o);
    plan_via(&mut steps, owned("q20b"), 0x20, &none, i, o);
    assert(plan_view(steps@) =~= via_plan(i as int, o as int));
    Some(steps)
}

// ------------------------------------------------------- listening for replies

/// Whose replies are listened for.
#[derive(Clone, Copy, Debug, PartialEq, Eq, Structural)]
pub enum Listener {
    Scan2,
    ViaProbe,
}

/// Listening for the replies to one command.
#[derive(Clone, Copy, Debug, PartialEq, Eq, Structural)]
pub struct Listening {
    pub listener: Listener,
    pub deadline: u64,
    /// The lines that were printed.
    pub printed: u32,
    /// A read failed.
    pub failed: bool,
}

/// How long the replies to one command are listened for, in nanoseconds.
pub open spec fn patience(l: Listener) -> u64 {
    match l {
        Listener::Scan2 => 260_000_000,
        Listener::ViaProbe => 1_600_000_000,
    }
}

/// A reply is worth a line.
pub open spec fn is_worth_a_line(l: Listener, b: Seq<u8>) -> bool {
    reports::some_data(b) && (l == Listener::Scan2 ==> !is_heartbeat(b))
}

impl Listening {
    /// Begins to listen for the replies to a command that was just sent.
    pub fn new(listener: Listener, now: u64) -> (r: Self)
        ensures
            r.listener == listener,
            r.deadline == if now + patience(listener) <= u64::MAX {
                now + patience(listener)
            } else {
                u64::MAX as int
            },
            r.printed == 0,
            !r.failed,
    {
        let wait: u64 = match listener {
            Listener::Scan2 => 260_000_000,
            Listener::ViaProbe => 1_600_000_000,
        };
        Listening { listener, deadline: now.saturating_add(wait), printed: 0, failed: false }
    }

    /// Listening goes on: until its time is up or a read fails, and for `via_probe` until
    /// three lines were printed.
    pub open spec fn goes_on(self, now: u64) -> bool {
        now < self.deadline && !self.failed && (self.listener == Listener::ViaProbe
            ==> self.printed < 3)
    }

    /// The milliseconds to wait for the next report; nothing once listening is over.
    pub fn wants_read(&self, now: u64) -> (r: Option<u32>)
        ensures
            r == if !self.goes_on(now) {
                None
            } else if self.listener == Listener::Scan2 {
                Some(60u32)
            } else {
                queries::time_left(now, self.deadline, 1, 800)
            },
    {
        if self.failed || now >= self.deadline {
            return None;
        }
        match self.listener {
            Listener::Scan2 => Some(60),
            Listener::ViaProbe => if self.printed < 3 {
                wait_ms(now, self.deadline, 1, 800)
            } else {
                None
            },
        }
    }

    /// Takes in what was read; returns the line to print, if it is worth one.
    pub fn on_read(&mut self, label: &str, reply: &Reply) -> (r: Option<String>)
        requires
            old(self).printed < u32::MAX,
        ensures
            match reply {
                Ok(b) => if is_worth_a_line(old(self).listener, b@) {
                    &&& r matches Some(s) && s@ == "  "@ + label@ + " -> "@ + text::hex_dump(b@)
                    &&& *final(self) == (Listening {
                        printed: (old(self).printed + 1) as u32,
                        ..*old(self)
                    })
                } else {
                    r is None && *final(self) == *old(self)
                },
                Err(_) => r is None && *final(self) == (Listening { failed: true, ..*old(self) }),
            },
    {
        match reply {
            Ok(b) => {
                let worth = match self.listener {
                    Listener::Scan2 => is_interesting(b),
                    Listener::ViaProbe => has_data(b),
                };
                if !worth {
                    return None;
                }
                self.printed = self.printed + 1;
                Some(step_line(label, " -> ", reply))
            },
            Err(_) => {
                self.failed = true;
                None
            },
        }
    }

    /// The line to print after listening, if there is one: `via_probe` tells that nothing
    /// came.
    pub fn ending(&self, label: &str) -> (r: Option<String>)
        ensures
            if self.listener == Listener::ViaProbe && self.printed == 0 {
                r matches Some(s) && s@ == "  "@ + label@ + " -> (no reply)"@
            } else {
                r is None
            },
    {
        match self.listener {
            Listener::ViaProbe => if self.printed == 0 {
                let mut s = owned("  ");
                push_text(&mut s, label);
                push_text(&mut s, " -> (no reply)");
                Some(s)
            } else {
                None
            },
            Listener::Scan2 => None,
        }
    }
}

// ------------------------------------------------------------------------- lines

/// The line for what came of a step.
pub fn step_line(label: &str, between: &str, reply: &Reply) -> (r: String)
    ensures
        r@ == "  "@ + label@ + between@ + match reply {
            Ok(b) => text::hex_dump(b@),
            Err(e) => e@,
        },
{
    let mut s = owned("  ");
    push_text(&mut s, label);
    push_text(&mut s, between);
    match reply {
        Ok(b) => {
            let hex = to_hex(b);
            push_text(&mut s, hex.as_str());
        },
        Err(e) => push_text(&mut s, e.as_str()),
    }
    assert(s@ =~= "  "@ + label@ + between@ + match reply {
        Ok(b) => text::hex_dump(b@),
        Err(e) => e@,
    });
    s
}

/// The lengths of a collection's reports.
pub open spec fn lengths_text(d: HidView) -> Seq<char> {
    " in="@ + text::decimal(d.input_len as nat) + " out="@ + text::decimal(d.output_len as nat)
        + " feat="@ + text::decimal(d.feature_len as nat)
}

/// The heading of `spy` for a collection.
pub fn spy_heading(d: &HidDevice) -> (r: String)
    ensures
        r@ == "--- spy "@ + hidwatch::ids_text(d.vid, d.pid) + " uP="@ + text::hex(
            d.usage_page as nat,
            4,
        ) + " u="@ + text::hex(d.usage as nat, 4) + lengths_text(d@) + " prod="@ + d.product@
            + " ---"@,
{
    let mut s = owned("--- spy ");
    push_ids(&mut s, d.vid, d.pid);
    push_text(&mut s, " uP=");
    push_hex(&mut s, d.usage_page as u64, 4);
    push_text(&mut s, " u=");
    push_hex(&mut s, d.usage as u64, 4);
    push_text(&mut s, " in=");
    push_decimal(&mut s, d.input_len as u64);
    push_text(&mut s, " out=");
    push_decimal(&mut s, d.output_len as u64);
    push_text(&mut s, " feat=");
    push_decimal(&mut s, d.feature_len as u64);
    push_text(&mut s, " prod=");
    push_text(&mut s, d.product.as_str());
    push_text(&mut s, " ---");
    assert(s@ =~= "--- spy "@ + hidwatch::ids_text(d.vid, d.pid) + " uP="@ + text::hex(
        d.usage_page as nat,
        4,
    ) + " u="@ + text::hex(d.usage as nat, 4) + lengths_text(d@) + " prod="@ + d.product@
        + " ---"@);
    s
}

// -------------------------------------------------------------------------- laws

/// The status collection's own request is among the commands of `scan2`: the one
/// with the header that the dongle pushes by itself.
pub proof fn law_scan2_sends_status_request(i: int, o: int)
    requires
        o >= 3,
    ensures
        scan2_step(257, i, o).cmd == reports::sonix_request(o as nat),
{
    assert(scan2_step(257, i, o).cmd =~= reports::sonix_request(o as nat));
}

/// No two commands of `scan2` are the same, except the two that say `0F 00`.
pub proof fn law_scan2_commands_differ(j: int, k: int, i: int, o: int)
    requires
        o >= 3,
        0 <= j < k < 512,
        scan2_step(j, i, o).cmd == scan2_step(k, i, o).cmd,
    ensures
        j == 0x0F && k == 256,
{
    let a = scan2_step(j, i, o).cmd;
    let b = scan2_step(k, i, o).cmd;
    if k < 256 {
        assert(a[1] == j as u8 && b[1] == k as u8);
    } else if j < 256 {
        assert(a[1] == j as u8 && b[1] == 0x0F);
        assert(a[2] == 0 && b[2] == (k - 256) as u8);
    } else {
        assert(a[2] == (j - 256) as u8 && b[2] == (k - 256) as u8);
    }
}

/// The heartbeat, whose battery is stale, is never worth a line of `scan2`, and it
/// tells no battery.
pub proof fn law_heartbeat_is_dull(b: Seq<u8>)
    requires
        is_heartbeat(b),
    ensures
        reports::sonix_battery(b) is None,
{
    let t = b.take(5);
    assert(t[0] == b[0] && t[1] == b[1] && t[2] == b[2] && t[3] == b[3]);
}

/// The larger of two lengths.
pub open spec fn longer(a: int, b: int) -> int {
    if a >= b {
        a
    } else {
        b
    }
}

/// A plan has a step with a label that sends, in its own way, `n` bytes with some bytes
/// in front.
pub open spec fn has_step(
    plan: Seq<StepView>,
    how: How,
    label: Seq<char>,
    front: Seq<u8>,
    n: int,
) -> bool {
    exists|k: int|
        0 <= k < plan.len() && (#[trigger] plan[k]).how == how && plan[k].label == label
            && plan[k].cmd.len() == n && front.len() <= n && plan[k].cmd.take(front.len() as int)
            == front
}

proof fn lemma_has_step(plan: Seq<StepView>, s: StepView, front: Seq<u8>)
    requires
        plan.contains(s),
        front.len() <= s.cmd.len(),
        forall|j: int| 0 <= j < front.len() ==> s.cmd[j] == front[j],
    ensures
        has_step(plan, s.how, s.label, front, s.cmd.len() as int),
{
    let k = choose|k: int| 0 <= k < plan.len() && plan[k] == s;
    assert(plan[k].cmd.take(front.len() as int) =~= front);
}

proof fn lemma_spy_parts(vid: u16, i: int, o: int, s: StepView)
    requires
        i != 0,
    ensures
        spy_mouse_start(vid, i, o).contains(s) || spy_compx(i, o).contains(s) || spy_49(i, o).contains(
            s,
        ) || spy_33(i, o).contains(s) || spy_65(i, o).contains(s) || spy_more(i, o).contains(s)
            || spy_mouse_end(vid, i, o).contains(s) || spy_keyboard_end(vid, i).contains(s)
            ==> spy_plan(vid, i, o).contains(s),
{
    let a = spy_mouse_start(vid, i, o);
    let b = spy_compx(i, o);
    let c = spy_49(i, o);
    let d = spy_33(i, o);
    let e = spy_65(i, o);
    let f = spy_more(i, o);
    let g = spy_mouse_end(vid, i, o);
    let h = spy_keyboard_end(vid, i);
    lemma_joined(a, b, s);
    lemma_joined(a + b, c, s);
    lemma_joined(a + b + c, d, s);
    lemma_joined(a + b + c + d, e, s);
    lemma_joined(a + b + c + d + e, f, s);
    lemma_joined(a + b + c + d + e + f, g, s);
    lemma_joined(a + b + c + d + e + f + g, h, s);
}

proof fn lemma_joined(a: Seq<StepView>, b: Seq<StepView>, s: StepView)
    ensures
        a.contains(s) || b.contains(s) ==> (a + b).contains(s),
{
    if a.contains(s) {
        let k = choose|k: int| 0 <= k < a.len() && a[k] == s;
        assert((a + b)[k] == s);
    } else if b.contains(s) {
        let k = choose|k: int| 0 <= k < b.len() && b[k] == s;
        assert((a + b)[a.len() + k] == s);
    }
}

/// The experiments look at vendors' own collections of the mouse and the keyboard, at
/// the open collections of the keyboard's dongle, at those with feature reports, at the
/// one that tells its status, and at VIA collections.
pub proof fn law_experiments_choose_collections(d: HidView)
    ensures
        is_spied(d) <==> d.access == "R/W"@ && d.usage_page >= 0xFF00 && (d.vid == 0x373B || d.vid
            == 0x0C45),
        is_open_dongle(d) <==> d.access == "R/W"@ && d.vid == 0x0C45 && d.pid == 0xFEFE,
        has_features(d) <==> d.access == "R/W"@ && d.vid == 0x0C45 && d.pid == 0xFEFE
            && d.feature_len > 0,
        is_status_collection(d) <==> d.vid == 0x0C45 && d.pid == 0xFEFE && d.usage_page == 0xFF59
            && d.output_len > 0,
        is_via_collection(d) <==> d.vid == 0x0C45 && d.usage_page == 0xFF60 && (d.input_len == 33
            || d.input_len == 65),
{
}

/// The spy asks a collection with reports of 17 bytes for the battery, the Compx way.
/// Commands are filled up to the length of its output reports.
pub proof fn law_spy_asks_compx_of_17(vid: u16, i: int, o: int)
    requires
        0 < i,
        0 <= o,
        i == 17 || o == 17,
    ensures
        ({
            let plan = spy_plan(vid, i, o);
            &&& has_step(plan, How::Transact, "compx-08-04"@, seq![0x08u8, 0x04u8], longer(o, 17))
        }),
{
    let plan = spy_plan(vid, i, o);
    let p = spy_compx(i, o);
    assert(p.contains(p[0]));
    lemma_spy_parts(vid, i, o, p[0]);
    lemma_has_step(plan, p[0], seq![0x08u8, 0x04u8]);
}

/// The spy asks a collection with reports of 20 bytes for the battery, the Compx way.
/// Commands are filled up to the length of its output reports.
pub proof fn law_spy_asks_compx_of_20(vid: u16, i: int, o: int)
    requires
        0 < i,
        0 <= o,
        i == 20 || o == 20,
    ensures
        ({
            let plan = spy_plan(vid, i, o);
            &&& has_step(plan, How::Transact, "compx-13-04"@, seq![0x13u8, 0x04u8], longer(o, 20))
        }),
{
    let plan = spy_plan(vid, i, o);
    let p = spy_compx(i, o);
    assert(p.contains(p[p.len() - 1]));
    lemma_spy_parts(vid, i, o, p[p.len() - 1]);
    lemma_has_step(plan, p[p.len() - 1], seq![0x13u8, 0x04u8]);
}

/// The spy asks a collection with reports of 49 bytes for the battery, with report id 0
/// and the Compx way. Commands are filled up to the length of its output reports.
pub proof fn law_spy_asks_collections_of_49(vid: u16, i: int, o: int)
    requires
        0 < i,
        0 <= o,
        i == 49 || o == 49,
    ensures
        ({
            let plan = spy_plan(vid, i, o);
            &&& has_step(plan, How::Transact, "rid0-cmd04"@, seq![0u8, 0x04u8], longer(o, 49))
            &&& has_step(plan, How::Transact, "compx-49"@, seq![0x08u8, 0x04u8], longer(o, 49))
            &&& has_step(plan, How::Transact, "compx-49-set"@, seq![0x08u8, 0x04u8], longer(o, 49))
        }),
{
    let plan = spy_plan(vid, i, o);
    let p = spy_49(i, o);
    assert(p.contains(p[0]));
    lemma_spy_parts(vid, i, o, p[0]);
    lemma_has_step(plan, p[0], seq![0u8, 0x04u8]);
    assert(p.contains(p[1]));
    lemma_spy_parts(vid, i, o, p[1]);
    lemma_has_step(plan, p[1], seq![0x08u8, 0x04u8]);
    let p = spy_more(i, o);
    assert(p.contains(p[p.len() - 1]));
    lemma_spy_parts(vid, i, o, p[p.len() - 1]);
    lemma_has_step(plan, p[p.len() - 1], seq![0x08u8, 0x04u8]);
}

/// The spy asks a collection with reports of 33 bytes for the VIA version, the battery,
/// keyboard values and channels. Commands are filled up to the length of its output
/// reports.
pub proof fn law_spy_asks_collections_of_33(vid: u16, i: int, o: int)
    requires
        0 < i,
        0 <= o,
        i == 33 || o == 33,
    ensures
        ({
            let plan = spy_plan(vid, i, o);
            &&& has_step(plan, How::Transact, "via-proto"@, seq![0u8, 0x01u8, 0u8], longer(o, 33))
            &&& has_step(plan, How::Transact, "qmk-a4"@, seq![0u8, 0xA4u8, 0u8], longer(o, 33))
            &&& has_step(plan, How::Transact, "via-custom"@, seq![0u8, 0x08u8, 0u8, 0u8], longer(o, 33))
            &&& has_step(plan, How::Transact, "via-kbval"@, seq![0u8, 0x02u8, 0x01u8, 0u8], longer(o, 33))
            &&& has_step(plan, How::Transact, "via-custom-ch5"@, seq![0u8, 0x08u8, 0x05u8, 0x01u8, 0u8], longer(o, 33))
            &&& has_step(plan, How::Transact, "via-custom-ch0"@, seq![0u8, 0x08u8, 0u8, 0x01u8, 0u8], longer(o, 33))
        }),
{
    let plan = spy_plan(vid, i, o);
    let p = spy_33(i, o);
    assert(p.contains(p[0]));
    lemma_spy_parts(vid, i, o, p[0]);
    lemma_has_step(plan, p[0], seq![0u8, 0x01u8, 0u8]);
    assert(p.contains(p[1]));
    lemma_spy_parts(vid, i, o, p[1]);
    lemma_has_step(plan, p[1], seq![0u8, 0xA4u8, 0u8]);
    assert(p.contains(p[2]));
    lemma_spy_parts(vid, i, o, p[2]);
    lemma_has_step(plan, p[2], seq![0u8, 0x08u8, 0u8, 0u8]);
    assert(p.contains(p[3]));
    lemma_spy_parts(vid, i, o, p[3]);
    lemma_has_step(plan, p[3], seq![0u8, 0x02u8, 0x01u8, 0u8]);
    let p = spy_more(i, o);
    assert(p.contains(p[0]));
    lemma_spy_parts(vid, i, o, p[0]);
    lemma_has_step(plan, p[0], seq![0u8, 0x08u8, 0x05u8, 0x01u8, 0u8]);
    assert(p.contains(p[1]));
    lemma_spy_parts(vid, i, o, p[1]);
    lemma_has_step(plan, p[1], seq![0u8, 0x08u8, 0u8, 0x01u8, 0u8]);
}

/// The spy asks a collection with reports of 65 bytes for the VIA version, the battery
/// and the status, and sends one command that means nothing. Commands are filled up to
/// the length of its output reports.
pub proof fn law_spy_asks_collections_of_65(vid: u16, i: int, o: int)
    requires
        0 < i,
        0 <= o,
        i == 65 || o == 65,
    ensures
        ({
            let plan = spy_plan(vid, i, o);
            &&& has_step(plan, How::Transact, "via65-proto"@, seq![0u8, 0x01u8, 0u8], longer(o, 65))
            &&& has_step(plan, How::Transact, "qmk65-a4"@, seq![0u8, 0xA4u8, 0u8], longer(o, 65))
            &&& has_step(plan, How::Transact, "cmd-0f"@, seq![0u8, 0x0Fu8, 0u8], longer(o, 65))
            &&& has_step(plan, How::Transact, "cmd-04"@, seq![0u8, 0x04u8, 0u8], longer(o, 65))
            &&& has_step(plan, How::Transact, "unique-99"@, seq![0u8, 0x99u8, 0x88u8, 0x77u8, 0u8], longer(o, 65))
        }),
{
    let plan = spy_plan(vid, i, o);
    let p = spy_65(i, o);
    assert(p.contains(p[0]));
    lemma_spy_parts(vid, i, o, p[0]);
    lemma_has_step(plan, p[0], seq![0u8, 0x01u8, 0u8]);
    assert(p.contains(p[1]));
    lemma_spy_parts(vid, i, o, p[1]);
    lemma_has_step(plan, p[1], seq![0u8, 0xA4u8, 0u8]);
    assert(p.contains(p[2]));
    lemma_spy_parts(vid, i, o, p[2]);
    lemma_has_step(plan, p[2], seq![0u8, 0x0Fu8, 0u8]);
    assert(p.contains(p[3]));
    lemma_spy_parts(vid, i, o, p[3]);
    lemma_has_step(plan, p[3], seq![0u8, 0x04u8, 0u8]);
    assert(p.contains(p[4]));
    lemma_spy_parts(vid, i, o, p[4]);
    lemma_has_step(plan, p[4], seq![0u8, 0x99u8, 0x88u8, 0x77u8, 0u8]);
}

/// The spy asks a collection of the mouse for its battery in each way of sending, and
/// for its settings memory. Commands are filled up to the length of its output reports.
pub proof fn law_spy_asks_mouse(vid: u16, i: int, o: int)
    requires
        0 < i,
        0 <= o,
        vid == 0x373B && i == 17,
    ensures
        ({
            let plan = spy_plan(vid, i, o);
            &&& has_step(plan, How::FreshSetThenRead, "fresh-set-then-read"@, seq![0x08u8, 0x04u8], longer(o, 17))
            &&& has_step(plan, How::SetThenRead, "set-then-read"@, seq![0x08u8, 0x04u8], longer(o, 17))
            &&& has_step(plan, How::WriteThenRead, "write-then-read"@, seq![0x08u8, 0x04u8], longer(o, 17))
            &&& has_step(plan, How::SetThenRead, "eeprom-set-then-read"@, seq![0x08u8, 0x08u8, 0u8, 0u8, 0u8, 0x01u8, 0u8], longer(o, 17))
        }),
{
    let plan = spy_plan(vid, i, o);
    let p = spy_mouse_start(vid, i, o);
    assert(p.contains(p[0]));
    lemma_spy_parts(vid, i, o, p[0]);
    lemma_has_step(plan, p[0], seq![0x08u8, 0x04u8]);
    let p = spy_mouse_end(vid, i, o);
    assert(p.contains(p[0]));
    lemma_spy_parts(vid, i, o, p[0]);
    lemma_has_step(plan, p[0], seq![0x08u8, 0x04u8]);
    assert(p.contains(p[1]));
    lemma_spy_parts(vid, i, o, p[1]);
    lemma_has_step(plan, p[1], seq![0x08u8, 0x04u8]);
    assert(p.contains(p[2]));
    lemma_spy_parts(vid, i, o, p[2]);
    lemma_has_step(plan, p[2], seq![0x08u8, 0x08u8, 0u8, 0u8, 0u8, 0x01u8, 0u8]);
}

/// The spy ends with a long wait for what the keyboard sends by itself, and sends nothing
/// to a collection without input reports, nor to one of the keyboard whose reports have
/// none of the known lengths.
pub proof fn law_spy_listens_to_keyboard(i: int, o: int)
    ensures
        i == 65 ==> spy_plan(0x0C45, i, o).last() == (StepView {
            how: How::ReadOnly,
            label: "long-unsolicited"@,
            cmd: Seq::empty(),
            read: 65,
            ms: 2500,
        }),
        spy_plan(0x0C45, 0, o).len() == 0,
        i != 17 && o != 17 && i != 20 && o != 20 && i != 33 && o != 33 && i != 49 && o != 49 && i
            != 65 && o != 65 ==> spy_plan(0x0C45, i, o).len() == 0,
{
    let h = spy_keyboard_end(0x0C45, i);
    if i == 65 {
        assert(spy_plan(0x0C45, i, o).last() == h[0]);
    }
}

/// Every step reads at least some bytes, and waits a second or more for them.
pub open spec fn reads_whole(p: Seq<StepView>, i: int) -> bool {
    forall|k: int| 0 <= k < p.len() ==> (#[trigger] p[k]).read >= i && p[k].ms >= 1000
}

proof fn lemma_reads_whole(a: Seq<StepView>, b: Seq<StepView>, i: int)
    requires
        reads_whole(a, i),
        reads_whole(b, i),
    ensures
        reads_whole(a + b, i),
{
    assert forall|k: int| 0 <= k < (a + b).len() implies (#[trigger] (a + b)[k]).read >= i && (a
        + b)[k].ms >= 1000 by {
        if k < a.len() {
            assert((a + b)[k] == a[k]);
        } else {
            assert((a + b)[k] == b[k - a.len()]);
        }
    }
}

/// The spy reads at least as many bytes as the collection's input reports have, and
/// waits a second or more for each reply.
pub proof fn law_spy_reads_whole_reports(vid: u16, i: int, o: int)
    ensures
        reads_whole(spy_plan(vid, i, o), i),
{
    let a = spy_mouse_start(vid, i, o);
    let b = spy_compx(i, o);
    let c = spy_49(i, o);
    let d = spy_33(i, o);
    let e = spy_65(i, o);
    let f = spy_more(i, o);
    let g = spy_mouse_end(vid, i, o);
    let h = spy_keyboard_end(vid, i);
    lemma_reads_whole(a, b, i);
    lemma_reads_whole(a + b, c, i);
    lemma_reads_whole(a + b + c, d, i);
    lemma_reads_whole(a + b + c + d, e, i);
    lemma_reads_whole(a + b + c + d + e, f, i);
    lemma_reads_whole(a + b + c + d + e + f, g, i);
    lemma_reads_whole(a + b + c + d + e + f + g, h, i);
}

/// The settings memory is asked for with a checksum that makes the first seventeen bytes
/// add up to 55 in hexadecimal.
pub proof fn law_memory_request_adds_up(o: int)
    ensures
        reports::byte_sum(eeprom_request(o).take(17)) % 256 == 0x55,
{
    let r = eeprom_request(o);
    let n = longer(o, 17);
    let body = led_by(n, seq![0x08u8, 0x08u8, 0u8, 0u8, 0u8, 0x01u8]);
    assert(r.take(17) =~= body.take(16).push(reports::compx_check_byte(body.take(16))));
    assert(r.take(17).drop_last() =~= body.take(16));
}

/// Each feature report from 0 on is got with its number in front and under that number;
/// the VIA collection's first seventeen are set as well.
pub proof fn law_features_are_asked_for_in_turn(page: u16, feat: int, k: int)
    requires
        0 <= feat,
        0 <= k < 33,
    ensures
        ({
            let plan = feat_plan(page, feat);
            let n = longer(feat, 2);
            &&& plan.len() == 33 + if page == 0xFF60 {
                17int
            } else {
                0
            }
            &&& plan[k].how == How::GetFeature && plan[k].read == n && plan[k].cmd.len() == n
            &&& plan[k].cmd[0] == k && plan[k].label == text::hex(k as nat, 2)
            &&& plan[k].cmd[1] == 0
            &&& page == 0xFF60 && k < 17 ==> plan[33 + k].how == How::SetThenGetFeature
                && plan[33 + k].read == n && plan[33 + k].cmd.len() == n && plan[33 + k].cmd[0] == k
                && plan[33 + k].label == text::hex(k as nat, 2)
        }),
{
    let n = longer(feat, 2);
    assert(feat_plan(page, feat)[k] == get_features(n, 33)[k]);
    if page == 0xFF60 && k < 17 {
        assert(feat_plan(page, feat)[33 + k] == set_features(n, 17)[k]);
    }
}

/// The scan listens first. A collection that takes no output is sent nothing; the status
/// collection and the VIA collection are sent their own commands, and feature reports
/// are got where there are any.
pub proof fn law_scan_listens_first(page: u16, i: int, o: int, feat: int)
    requires
        0 <= i,
        0 <= o,
        0 <= feat,
    ensures
        ({
            let plan = scan_plan(page, i, o, feat);
            let features = if feat > 0 {
                17int
            } else {
                0
            };
            &&& plan[0].how == How::ReadOnly && plan[0].read == longer(i, 1) && plan[0].cmd.len()
                == 0
            &&& plan[0].ms == (if i == 65 {
                800u32
            } else {
                200u32
            })
            &&& o == 0 ==> plan.len() == 1
            &&& o >= 2 && page == 0xFF59 ==> plan.len() == 8 + features && has_step(
                plan,
                How::SetOnly,
                "SetOutput 0x0F"@,
                seq![0u8, 0x0Fu8],
                o,
            ) && has_step(plan, How::WriteOnly, "WriteFile 0x0F"@, seq![0u8, 0x0Fu8], o)
            &&& o >= 3 && page == 0xFF59 ==> has_step(
                plan,
                How::WriteThenRead,
                "aa55-0f"@,
                seq![0xAAu8, 0x55u8, 0x0Fu8],
                o,
            ) && has_step(
                plan,
                How::WriteThenRead,
                "aafa-03"@,
                seq![0xAAu8, 0xFAu8, 0x03u8],
                o,
            ) && has_step(plan, How::WriteThenRead, "via-a4-b0"@, seq![0xA4u8, 0u8], o) && has_step(
                plan,
                How::WriteThenRead,
                "cmd-a4"@,
                seq![0u8, 0xA4u8, 0u8],
                o,
            )
            &&& o >= 2 && page == 0xFF60 ==> plan.len() == 5 + features && has_step(
                plan,
                How::WriteThenRead,
                "via01-write"@,
                seq![0u8, 0x01u8],
                o,
            ) && has_step(plan, How::WriteThenRead, "via-a4-write"@, seq![0u8, 0xA4u8], o)
                && has_step(plan, How::WriteThenRead, "a4-at0"@, seq![0xA4u8, 0u8], o) && has_step(
                plan,
                How::WriteThenRead,
                "01-at0"@,
                seq![0x01u8, 0u8],
                o,
            )
            &&& o > 0 && page != 0xFF59 && page != 0xFF60 ==> plan.len() == 1 + features
            &&& o > 0 && feat > 0 ==> plan.last().how == How::GetFeature && plan.last().cmd.len()
                == feat && plan.last().cmd[0] == 16
        }),
{
    let plan = scan_plan(page, i, o, feat);
    let read = longer(i, 1);
    if o > 0 && feat > 0 {
        assert(plan.last() == get_features(feat, 17)[16]);
    }
    if o >= 2 && page == 0xFF59 {
        let p = scan_status(page, read, o);
        assert(p.len() == 7);
        assert(plan[1] == p[0] && plan[2] == p[1] && plan[4] == p[3] && plan[5] == p[4] && plan[6]
            == p[5] && plan[7] == p[6]);
        lemma_has_step(plan, plan[1], seq![0u8, 0x0Fu8]);
        lemma_has_step(plan, plan[2], seq![0u8, 0x0Fu8]);
        if o >= 3 {
            lemma_has_step(plan, plan[4], seq![0xAAu8, 0x55u8, 0x0Fu8]);
            lemma_has_step(plan, plan[5], seq![0xAAu8, 0xFAu8, 0x03u8]);
            lemma_has_step(plan, plan[6], seq![0xA4u8, 0u8]);
            lemma_has_step(plan, plan[7], seq![0u8, 0xA4u8, 0u8]);
        }
    }
    if o >= 2 && page == 0xFF60 {
        let p = scan_via(page, read, o);
        assert(p.len() == 4);
        assert(plan[1] == p[0] && plan[2] == p[1] && plan[3] == p[2] && plan[4] == p[3]);
        lemma_has_step(plan, plan[1], seq![0u8, 0x01u8]);
        lemma_has_step(plan, plan[2], seq![0u8, 0xA4u8]);
        lemma_has_step(plan, plan[3], seq![0xA4u8, 0u8]);
        lemma_has_step(plan, plan[4], seq![0x01u8, 0u8]);
    }
}

/// The search of the command space sends each first byte once, and each byte behind
/// `0F` once, and waits 60 ms for each.
pub proof fn law_scan2_sends_every_byte(b: u8, i: int, o: int)
    requires
        o >= 3,
    ensures
        ({
            let one = scan2_step(b as int, i, o);
            let two = scan2_step(256 + b, i, o);
            &&& one.cmd.len() == o && one.cmd[0] == 0 && one.cmd[1] == b && one.cmd[2] == 0
            &&& two.cmd.len() == o && two.cmd[0] == 0 && two.cmd[1] == 0x0F && two.cmd[2] == b
            &&& one.how == How::WriteThenRead && two.how == How::WriteThenRead
            &&& one.ms == 60 && two.ms == 60
            &&& one.read == longer(i, 1) && two.read == longer(i, 1)
            &&& one.label == "cmd[1]="@ + text::hex(b as nat, 2)
            &&& two.label == "cmd 0F "@ + text::hex(b as nat, 2)
        }),
{
}

/// The VIA probe asks for the protocol version, for sixteen keyboard values, for value 0
/// of sixteen channels and value 1 of eight, and then tries three more commands.
pub proof fn law_via_probe_asks_in_turn(i: int, o: int, k: int)
    requires
        0 <= k < 16,
        0 <= o,
    ensures
        ({
            let plan = via_plan(i, o);
            let n = longer(o, 33);
            &&& plan.len() == 44
            &&& plan[0].cmd[1] == 0x01
            &&& plan[1 + k].cmd[1] == 0x02 && plan[1 + k].cmd[2] == k
            &&& plan[17 + k].cmd[1] == 0x08 && plan[17 + k].cmd[2] == k && plan[17 + k].cmd[3] == 0
            &&& k < 8 ==> plan[33 + k].cmd[1] == 0x08 && plan[33 + k].cmd[2] == k && plan[33
                + k].cmd[3] == 1
            &&& plan[41].cmd[1] == 0xA4
            &&& plan[42].cmd[1] == 0x20 && plan[42].cmd[2] == 1
            &&& plan[43].cmd[1] == 0x20 && plan[43].cmd[2] == 0
            &&& plan[1 + k].label == "kbval-02-"@ + text::hex(k as nat, 2)
            &&& forall|j: int|
                0 <= j < 44 ==> (#[trigger] via_plan(i, o)[j]).cmd.len() == n && via_plan(
                    i,
                    o,
                )[j].cmd[0] == 0 && via_plan(i, o)[j].how == How::WriteThenRead && via_plan(
                    i,
                    o,
                )[j].read == longer(i, 2) && via_plan(i, o)[j].ms == 800
        }),
{
    let plan = via_plan(i, o);
    assert(plan[1 + k] == via_values(i, o)[k]);
    assert(plan[17 + k] == via_channels(i, o)[k]);
    if k < 8 {
        assert(plan[33 + k] == via_channels_one(i, o)[k]);
    }
    assert forall|j: int| 0 <= j < 44 implies (#[trigger] via_plan(i, o)[j]).cmd.len() == longer(
        o,
        33,
    ) && plan[j].cmd[0] == 0 && plan[j].how == How::WriteThenRead && plan[j].read == longer(i, 2)
        && plan[j].ms == 800 by {
        if 1 <= j < 17 {
            assert(plan[j] == via_values(i, o)[j - 1]);
        } else if 17 <= j < 33 {
            assert(plan[j] == via_channels(i, o)[j - 17]);
        } else if 33 <= j < 41 {
            assert(plan[j] == via_channels_one(i, o)[j - 33]);
        }
    }
}

/// A feature report is worth a line where a byte other than its number is set; while all
/// its bytes are zero or its number, it is not.
pub proof fn law_filled_features_are_told(b: Seq<u8>, id: u8, i: int)
    requires
        0 <= i < b.len(),
    ensures
        b[i] != 0 && i > 0 ==> is_filled(b),
        b[i] != 0 && b[i] != id ==> is_telling(b, id),
        (forall|j: int| 0 < j < b.len() ==> b[j] == 0) ==> !is_filled(b),
        (forall|j: int| 0 <= j < b.len() ==> b[j] == 0 || b[j] == id) ==> !is_telling(b, id),
{
}

/// The heartbeat of the dongle begins with `00 0F 01 01 11`. The search of the command
/// space passes over it; the VIA probe does not. A reply of zeros is never told.
pub proof fn law_replies_are_told(b: Seq<u8>, i: int)
    requires
        0 <= i < b.len(),
    ensures
        ({
            let beat = b.len() >= 5 && b[0] == 0 && b[1] == 0x0F && b[2] == 1 && b[3] == 1 && b[4]
                == 0x11;
            &&& b[i] != 0 ==> is_worth_a_line(Listener::ViaProbe, b)
            &&& b[i] != 0 && !beat ==> is_worth_a_line(Listener::Scan2, b)
            &&& beat ==> !is_worth_a_line(Listener::Scan2, b)
            &&& (forall|j: int| 0 <= j < b.len() ==> b[j] == 0) ==> !is_worth_a_line(
                Listener::Scan2,
                b,
            ) && !is_worth_a_line(Listener::ViaProbe, b)
        }),
{
    let beat = seq![0x00u8, 0x0Fu8, 0x01u8, 0x01u8, 0x11u8];
    if b.len() >= 5 {
        let t = b.take(5);
        assert(t[0] == b[0] && t[1] == b[1] && t[2] == b[2] && t[3] == b[3] && t[4] == b[4]);
        if b[0] == 0 && b[1] == 0x0F && b[2] == 1 && b[3] == 1 && b[4] == 0x11 {
            assert(t =~= beat);
        }
    }
}

/// Replies are listened for until the time is up or a read fails, 260 ms in the search of
/// the command space and 1600 ms in the VIA probe, which ends after three lines.
pub proof fn law_listening_ends(l: Listening, now: u64)
    ensures
        now >= l.deadline || l.failed ==> !l.goes_on(now),
        l.listener == Listener::ViaProbe && l.printed >= 3 ==> !l.goes_on(now),
        now < l.deadline && !l.failed && (l.listener == Listener::Scan2 || l.printed < 3)
            ==> l.goes_on(now),
        patience(Listener::Scan2) == 260 * 1_000_000,
        patience(Listener::ViaProbe) == 1600 * 1_000_000,
{
}

/// The steps of an experiment say what they do, each in turn.
pub proof fn law_steps_tell_all(steps: Seq<Step>, k: int)
    requires
        0 <= k < steps.len(),
    ensures
        ({
            let v = plan_view(steps)[k];
            let s = steps[k];
            &&& plan_view(steps).len() == steps.len()
            &&& v.how == s.how && v.label == s.label@ && v.cmd == s.cmd@
            &&& v.read == s.read && v.ms == s.ms
        }),
{
}

/// The lengths of a collection's reports are told in decimal.
pub proof fn law_lengths_are_told(d: HidView)
    ensures
        text::starts_with(lengths_text(d), " in="@ + text::decimal(d.input_len as nat)),
        text::contains(lengths_text(d), " out="@ + text::decimal(d.output_len as nat)),
        text::contains(lengths_text(d), " feat="@ + text::decimal(d.feature_len as nat)),
{
    let i = " in="@ + text::decimal(d.input_len as nat);
    let o = " out="@ + text::decimal(d.output_len as nat);
    let f = " feat="@ + text::decimal(d.feature_len as nat);
    let s = lengths_text(d);
    assert(s =~= i + (o + f));
    text::lemma_between(Seq::empty(), i, o + f);
    assert(s =~= i + o + f);
    text::lemma_between(i, o, f);
    assert(s =~= (i + o) + f + Seq::empty());
    text::lemma_between(i + o, f, Seq::empty());
}

} // verus!
