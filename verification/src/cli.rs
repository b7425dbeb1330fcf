//! The command line, and the lines that it prints.

use vstd::prelude::*;

use crate::hid::{HidDevice, HidView};
use crate::hidwatch;
use crate::hidwatch::{push_battery, push_ids};
use crate::model;
use crate::model::{Device, DeviceView};
use crate::text;
use crate::text::{has_text, owned, parse_number, push_decimal, push_hex, push_text, same};

verus! {

/// What the program is asked to do.
#[derive(Clone, Copy, Debug, PartialEq, Eq, Structural)]
pub enum Command {
    /// Print the Bluetooth devices.
    Probe,
    /// Print the devices of both kinds.
    BattProps,
    /// Print what receivers send, for some seconds.
    Listen(u64),
    Scan,
    Scan2,
    Feat,
    Spy,
    Via,
    /// Print the HID collections and the devices that they make up.
    HidProbe,
    /// Show the strip, with the devices of the preview or the real ones.
    Run { demo: bool },
}

/// One of the arguments is a word, or the word behind two dashes.
pub open spec fn asks(args: Seq<Seq<char>>, word: Seq<char>) -> bool {
    exists|i: int|
        0 <= i < args.len() && ((#[trigger] args[i]) == word || args[i] == "--"@ + word)
}

/// The first argument that is a number.
pub open spec fn first_number(args: Seq<Seq<char>>) -> Option<int>
    decreases args.len(),
{
    if args.len() == 0 {
        None
    } else if text::parsed_number(args[0], 10, u64::MAX as int) is Some {
        text::parsed_number(args[0], 10, u64::MAX as int)
    } else {
        first_number(args.skip(1))
    }
}

/// What the arguments ask for. Where they ask for several things, the first of this
/// list is done.
pub open spec fn asked(args: Seq<Seq<char>>) -> Command {
    if asks(args, "probe"@) || args.contains("-p"@) {
        Command::Probe
    } else if asks(args, "battprops"@) {
        Command::BattProps
    } else if asks(args, "hidlisten"@) {
        Command::Listen(
            match first_number(args) {
                Some(n) => n as u64,
                None => 40,
            },
        )
    } else if asks(args, "hidscan"@) {
        Command::Scan
    } else if asks(args, "scan2"@) {
        Command::Scan2
    } else if asks(args, "feat"@) {
        Command::Feat
    } else if asks(args, "hidspy"@) {
        Command::Spy
    } else if asks(args, "via"@) {
        Command::Via
    } else if asks(args, "hidprobe"@) {
        Command::HidProbe
    } else {
        Command::Run { demo: asks(args, "demo"@) }
    }
}

fn has_word(args: &Vec<String>, word: &str) -> (r: bool)
    ensures
        r == asks(model::texts(args@), word@),
{
    let ghost t = model::texts(args@);
    let mut long = owned("--");
    push_text(&mut long, word);
    for i in 0..args.len()
        invariant
            t == model::texts(args@),
            long@ == "--"@ + word@,
            forall|j: int| 0 <= j < i ==> (#[trigger] t[j]) != word@ && t[j] != "--"@ + word@,
    {
        assert(t[i as int] == args@[i as int]@);
        if same(args[i].as_str(), word) || same(args[i].as_str(), long.as_str()) {
            return true;
        }
    }
    false
}

fn has_short(args: &Vec<String>) -> (r: bool)
    ensures
        r == model::texts(args@).contains("-p"@),
{
    let ghost t = model::texts(args@);
    for i in 0..args.len()
        invariant
            t == model::texts(args@),
            forall|j: int| 0 <= j < i ==> (#[trigger] t[j]) != "-p"@,
    {
        assert(t[i as int] == args@[i as int]@);
        if same(args[i].as_str(), "-p") {
            return true;
        }
    }
    false
}

fn number_in(args: &Vec<String>) -> (r: Option<u64>)
    ensures
        match r {
            Some(n) => first_number(model::texts(args@)) == Some(n as int),
            None => first_number(model::texts(args@)) is None,
        },
{
    let ghost t = model::texts(args@);
    assert(t.skip(0) =~= t);
    for i in 0..args.len()
        invariant
            t == model::texts(args@),
            first_number(t) == first_number(t.skip(i as int)),
    {
        assert(t.skip(i as int)[0] == args@[i as int]@);
        if let Some(n) = parse_number(args[i].as_str(), 10, u64::MAX) {
            return Some(n);
        }
        assert(t.skip(i as int).skip(1) =~= t.skip(i + 1));
    }
    None
}

/// What the arguments ask for.
pub fn parse_args(args: &Vec<String>) -> (r: Command)
    ensures
        r == asked(model::texts(args@)),
{
    if has_word(args, "probe") || has_short(args) {
        Command::Probe
    } else if has_word(args, "battprops") {
        Command::BattProps
    } else if has_word(args, "hidlisten") {
        match number_in(args) {
            Some(n) => Command::Listen(n),
            None => Command::Listen(40),
        }
    } else if has_word(args, "hidscan") {
        Command::Scan
    } else if has_word(args, "scan2") {
        Command::Scan2
    } else if has_word(args, "feat") {
        Command::Feat
    } else if has_word(args, "hidspy") {
        Command::Spy
    } else if has_word(args, "via") {
        Command::Via
    } else if has_word(args, "hidprobe") {
        Command::HidProbe
    } else {
        Command::Run { demo: has_word(args, "demo") }
    }
}

// ----------------------------------------------------------------------- lines

/// Yes or no as it is printed for diagnosis.
pub open spec fn flag_text(b: bool) -> Seq<char> {
    if b {
        "true"@
    } else {
        "false"@
    }
}

fn push_flag(out: &mut String, b: bool)
    ensures
        final(out)@ == old(out)@ + flag_text(b),
{
    if b {
        push_text(out, "true");
    } else {
        push_text(out, "false");
    }
}

/// The numbers of a collection.
pub open spec fn collection_numbers(d: HidView) -> Seq<char> {
    hidwatch::ids_text(d.vid, d.pid) + " uP="@ + text::hex(d.usage_page as nat, 4) + " u="@
        + text::hex(d.usage as nat, 4) + " in="@ + text::decimal(d.input_len as nat) + " out="@
        + text::decimal(d.output_len as nat) + " feat="@ + text::decimal(d.feature_len as nat)
}

/// What is known of a collection's battery.
pub open spec fn collection_battery(d: HidView) -> Seq<char> {
    " battery="@ + hidwatch::battery_text(d.battery) + " link="@ + flag_text(d.link_up) + " bytes=["@
        + d.feature_hex + "] dbg=["@ + d.debug + "] path="@ + d.path
}

fn push_numbers(s: &mut String, d: &HidDevice)
    ensures
        final(s)@ == old(s)@ + collection_numbers(d@),
{
    push_ids(s, d.vid, d.pid);
    push_text(s, " uP=");
    push_hex(s, d.usage_page as u64, 4);
    push_text(s, " u=");
    push_hex(s, d.usage as u64, 4);
    push_text(s, " in=");
    push_decimal(s, d.input_len as u64);
    push_text(s, " out=");
    push_decimal(s, d.output_len as u64);
    push_text(s, " feat=");
    push_decimal(s, d.feature_len as u64);
    assert(s@ =~= old(s)@ + collection_numbers(d@));
}

fn push_known(s: &mut String, d: &HidDevice)
    ensures
        final(s)@ == old(s)@ + collection_battery(d@),
{
    push_text(s, " battery=");
    push_battery(s, d.battery);
    push_text(s, " link=");
    push_flag(s, d.link_up);
    push_text(s, " bytes=[");
    push_text(s, d.feature_hex.as_str());
    push_text(s, "] dbg=[");
    push_text(s, d.debug.as_str());
    push_text(s, "] path=");
    push_text(s, d.path.as_str());
    assert(s@ =~= old(s)@ + collection_battery(d@));
}

/// The line for a collection.
pub fn collection_line(d: &HidDevice) -> (r: String)
    ensures
        r@ == collection_numbers(d@) + " acc="@ + d.access@ + " prod=|"@ + d.product@ + "| mfg=|"@
            + d.manufacturer@ + "|"@ + collection_battery(d@),
{
    let mut s = String::new();
    push_numbers(&mut s, d);
    assert(s@ =~= collection_numbers(d@));
    push_text(&mut s, " acc=");
    push_text(&mut s, d.access);
    push_text(&mut s, " prod=|");
    push_text(&mut s, d.product.as_str());
    push_text(&mut s, "| mfg=|");
    push_text(&mut s, d.manufacturer.as_str());
    push_text(&mut s, "|");
    push_known(&mut s, d);
    s
}

/// The line for a device.
pub fn device_line(d: &Device) -> (r: String)
    ensures
        r@ == device_text(d@),
{
    let mut s = d.name.clone();
    push_text(&mut s, " connected=");
    push_flag(&mut s, d.connected);
    push_text(&mut s, " battery=");
    push_battery(&mut s, d.battery);
    push_text(&mut s, " status=");
    push_text(&mut s, d.status);
    push_text(&mut s, " kind=");
    push_text(&mut s, d.kind);
    push_text(&mut s, " addr=");
    push_text(&mut s, d.address.as_str());
    s
}

/// A device as it is printed for diagnosis.
pub open spec fn device_text(d: DeviceView) -> Seq<char> {
    d.name + " connected="@ + flag_text(d.connected) + " battery="@ + hidwatch::battery_text(
        d.battery,
    ) + " status="@ + d.status + " kind="@ + d.kind + " addr="@ + d.address
}

/// A failure is one of the receivers that matter.
pub open spec fn is_notable(f: Seq<char>) -> bool {
    text::contains(text::lowercase(f), "vid_373b"@) || text::contains(
        text::lowercase(f),
        "vid_046d"@,
    )
}

/// What a lower-case failure says of being notable.
pub fn lower_is_notable(lower: &str) -> (r: bool)
    ensures
        r == (text::contains(lower@, "vid_373b"@) || text::contains(lower@, "vid_046d"@)),
{
    has_text(lower, "vid_373b") || has_text(lower, "vid_046d")
}

/// The failures to open collections of the receivers that matter.
pub fn notable_failures(fails: &Vec<String>) -> (r: Vec<String>)
    ensures
        model::texts(r@) == model::texts(fails@).filter(|f: Seq<char>| is_notable(f)),
{
    let ghost t = model::texts(fails@);
    let ghost keep = |f: Seq<char>| is_notable(f);
    let mut out: Vec<String> = Vec::new();
    assert(t.take(0).filter(keep) =~= Seq::empty()) by {
        reveal(Seq::filter);
    }
    for i in 0..fails.len()
        invariant
            t == model::texts(fails@),
            keep == (|f: Seq<char>| is_notable(f)),
            model::texts(out@) == t.take(i as int).filter(keep),
    {
        reveal(Seq::filter);
        assert(t.take(i + 1).drop_last() =~= t.take(i as int));
        assert(t.take(i + 1).last() == fails@[i as int]@);
        let lower = fails[i].as_str().to_lowercase();
        if lower_is_notable(lower.as_str()) {
            let ghost before = out@;
            let f = fails[i].clone();
            out.push(f);
            assert(model::texts(out@) =~= model::texts(before).push(f@));
        }
    }
    assert(t.take(t.len() as int) =~= t);
    out
}

/// The lines about collections that could not be opened: a heading and the failures that
/// matter, or else how many others there are.
pub open spec fn failure_report(fails: Seq<Seq<char>>) -> Seq<Seq<char>> {
    let notable = fails.filter(|f: Seq<char>| is_notable(f));
    if notable.len() > 0 {
        seq!["--- 373B/046D 相关接口（被拒/无法打开） ---"@] + notable.map_values(
            |f: Seq<char>| "  "@ + f,
        )
    } else if fails.len() > 0 {
        seq![
            "--- 其他接口无法打开（系统独占，可忽略）: "@ + text::decimal(fails.len()) + " 个 ---"@,
        ]
    } else {
        Seq::empty()
    }
}

/// The lines about collections that could not be opened.
pub fn failure_lines(fails: &Vec<String>) -> (r: Vec<String>)
    ensures
        model::texts(r@) == failure_report(model::texts(fails@)),
{
    let notable = notable_failures(fails);
    let ghost n = model::texts(notable@);
    let mut out: Vec<String> = Vec::new();
    if notable.len() > 0 {
        out.push(owned("--- 373B/046D 相关接口（被拒/无法打开） ---"));
        let ghost lines = n.map_values(|f: Seq<char>| "  "@ + f);
        let ghost head = seq!["--- 373B/046D 相关接口（被拒/无法打开） ---"@];
        assert(model::texts(out@) =~= head + lines.take(0));
        for i in 0..notable.len()
            invariant
                n == model::texts(notable@),
                lines == n.map_values(|f: Seq<char>| "  "@ + f),
                model::texts(out@) == head + lines.take(i as int),
        {
            let ghost before = out@;
            let mut s = owned("  ");
            push_text(&mut s, notable[i].as_str());
            assert(n[i as int] == notable@[i as int]@);
            assert(s@ =~= lines[i as int]);
            out.push(s);
            assert(model::texts(out@) =~= model::texts(before).push(s@));
            assert(model::texts(out@) =~= head + lines.take(i + 1));
        }
        assert(lines.take(n.len() as int) =~= lines);
        assert(model::texts(out@) =~= failure_report(model::texts(fails@)));
    } else if fails.len() > 0 {
        let mut s = owned("--- 其他接口无法打开（系统独占，可忽略）: ");
        push_decimal(&mut s, fails.len() as u64);
        push_text(&mut s, " 个 ---");
        out.push(s);
        assert(model::texts(fails@).len() == fails@.len());
        assert(model::texts(out@) =~= failure_report(model::texts(fails@)));
    } else {
        assert(model::texts(fails@).len() == 0);
        assert(model::texts(out@) =~= failure_report(model::texts(fails@)));
    }
    out
}

// ------------------------------------------------------------------------ laws

/// The dashes before a word make no difference.
pub proof fn law_dashes_are_optional(word: Seq<char>)
    ensures
        asks(seq![word], word),
        asks(seq!["--"@ + word], word),
{
    assert(seq![word][0] == word);
    assert(seq!["--"@ + word][0] == "--"@ + word);
}

/// Without arguments the strip is shown.
pub proof fn law_no_arguments_run(args: Seq<Seq<char>>)
    requires
        args.len() == 0,
    ensures
        asked(args) == (Command::Run { demo: false }),
{
}

proof fn lemma_asks(args: Seq<Seq<char>>, word: Seq<char>)
    ensures
        asks(args, word) <==> args.contains(word) || args.contains("--"@ + word),
{
    if asks(args, word) {
        let i = choose|i: int|
            0 <= i < args.len() && ((#[trigger] args[i]) == word || args[i] == "--"@ + word);
        assert(args.contains(args[i]));
    }
}

/// Each task of the program is named by a word, with two dashes before it or without.
/// Where several are named, printing the Bluetooth devices comes first, and the strip
/// is shown only if none is.
pub proof fn law_words_name_tasks(args: Seq<Seq<char>>)
    ensures
        ({
            let probe = args.contains("probe"@) || args.contains("--probe"@) || args.contains(
                "-p"@,
            );
            let props = args.contains("battprops"@) || args.contains("--battprops"@);
            let listen = args.contains("hidlisten"@) || args.contains("--hidlisten"@);
            let scan = args.contains("hidscan"@) || args.contains("--hidscan"@);
            let scan2 = args.contains("scan2"@) || args.contains("--scan2"@);
            let feat = args.contains("feat"@) || args.contains("--feat"@);
            let spy = args.contains("hidspy"@) || args.contains("--hidspy"@);
            let via = args.contains("via"@) || args.contains("--via"@);
            let hid = args.contains("hidprobe"@) || args.contains("--hidprobe"@);
            let demo = args.contains("demo"@) || args.contains("--demo"@);
            let first = probe || props || listen;
            let second = first || scan || scan2 || feat;
            let c = asked(args);
            &&& c is Probe <==> probe
            &&& c is BattProps <==> props && !probe
            &&& c is Listen <==> listen && !probe && !props
            &&& c is Scan <==> scan && !first
            &&& c is Scan2 <==> scan2 && !first && !scan
            &&& c is Feat <==> feat && !first && !scan && !scan2
            &&& c is Spy <==> spy && !second
            &&& c is Via <==> via && !second && !spy
            &&& c is HidProbe <==> hid && !second && !spy && !via
            &&& c is Run <==> !second && !spy && !via && !hid
            &&& c matches Command::Run { demo: shown } ==> shown == demo
        }),
{
    reveal_strlit("--");
    reveal_strlit("probe");
    reveal_strlit("--probe");
    reveal_strlit("battprops");
    reveal_strlit("--battprops");
    reveal_strlit("hidlisten");
    reveal_strlit("--hidlisten");
    reveal_strlit("hidscan");
    reveal_strlit("--hidscan");
    reveal_strlit("scan2");
    reveal_strlit("--scan2");
    reveal_strlit("feat");
    reveal_strlit("--feat");
    reveal_strlit("hidspy");
    reveal_strlit("--hidspy");
    reveal_strlit("via");
    reveal_strlit("--via");
    reveal_strlit("hidprobe");
    reveal_strlit("--hidprobe");
    reveal_strlit("demo");
    reveal_strlit("--demo");
    assert("--"@ + "probe"@ =~= "--probe"@);
    assert("--"@ + "battprops"@ =~= "--battprops"@);
    assert("--"@ + "hidlisten"@ =~= "--hidlisten"@);
    assert("--"@ + "hidscan"@ =~= "--hidscan"@);
    assert("--"@ + "scan2"@ =~= "--scan2"@);
    assert("--"@ + "feat"@ =~= "--feat"@);
    assert("--"@ + "hidspy"@ =~= "--hidspy"@);
    assert("--"@ + "via"@ =~= "--via"@);
    assert("--"@ + "hidprobe"@ =~= "--hidprobe"@);
    assert("--"@ + "demo"@ =~= "--demo"@);
    lemma_asks(args, "probe"@);
    lemma_asks(args, "battprops"@);
    lemma_asks(args, "hidlisten"@);
    lemma_asks(args, "hidscan"@);
    lemma_asks(args, "scan2"@);
    lemma_asks(args, "feat"@);
    lemma_asks(args, "hidspy"@);
    lemma_asks(args, "via"@);
    lemma_asks(args, "hidprobe"@);
    lemma_asks(args, "demo"@);
}

proof fn lemma_decimal_starts(n: nat)
    ensures
        decimal_digit(text::decimal(n)[0]),
    decreases n,
{
    if n >= 10 {
        lemma_decimal_starts(n / 10);
        text::law_decimal_reads_back(n / 10);
        assert(text::decimal(n)[0] == text::decimal(n / 10)[0]);
    }
}

/// A character is one of the ten digits.
pub open spec fn decimal_digit(c: char) -> bool {
    '0' <= c && c <= '9'
}

proof fn lemma_first_number(args: Seq<Seq<char>>, i: int)
    requires
        0 <= i <= args.len(),
        forall|j: int|
            0 <= j < i ==> text::parsed_number(#[trigger] args[j], 10, u64::MAX as int) is None,
        i < args.len() ==> text::parsed_number(args[i], 10, u64::MAX as int) is Some,
    ensures
        i < args.len() ==> first_number(args) == text::parsed_number(
            args[i],
            10,
            u64::MAX as int,
        ),
        i == args.len() ==> first_number(args) is None,
    decreases args.len(),
{
    if args.len() > 0 && i > 0 {
        assert(text::parsed_number(args[0], 10, u64::MAX as int) is None);
        assert forall|j: int| 0 <= j < i - 1 implies text::parsed_number(
            #[trigger] args.skip(1)[j],
            10,
            u64::MAX as int,
        ) is None by {
            assert(args.skip(1)[j] == args[j + 1]);
        }
        if i < args.len() {
            assert(args.skip(1)[i - 1] == args[i]);
        }
        lemma_first_number(args.skip(1), i - 1);
    }
}

/// The program listens for as many seconds as the first argument that is a number says,
/// and for 40 if there is none.
pub proof fn law_listening_lasts_as_told(args: Seq<Seq<char>>, i: int, n: u64)
    requires
        asked(args) is Listen,
        0 <= i <= args.len(),
        forall|j: int|
            0 <= j < i ==> text::parsed_number(#[trigger] args[j], 10, u64::MAX as int) is None,
        i < args.len() ==> args[i] == text::decimal(n as nat),
    ensures
        i < args.len() ==> asked(args) == Command::Listen(n),
        i == args.len() ==> asked(args) == Command::Listen(40),
{
    text::law_decimal_reads_back(n as nat);
    lemma_decimal_starts(n as nat);
    lemma_first_number(args, i);
}

/// Every failure to open a collection of the makers 373B and 046D is told, behind a
/// heading, and then no other failure is. Where there are none of those, the others are
/// counted in one line; without any failure nothing is told.
pub proof fn law_notable_failures_are_told(fails: Seq<Seq<char>>, f: Seq<char>)
    ensures
        ({
            let low = text::lowercase(f);
            let notable = text::contains(low, "vid_373b"@) || text::contains(low, "vid_046d"@);
            let report = failure_report(fails);
            let told = report.contains("  "@ + f);
            &&& fails.contains(f) && notable ==> told && report.len() >= 2
            &&& report.len() >= 2 && told ==> fails.contains(f) && notable
            &&& fails.len() == 0 <==> report.len() == 0
            &&& report.len() == 1 ==> report[0] == "--- 其他接口无法打开（系统独占，可忽略）: "@
                + text::decimal(fails.len()) + " 个 ---"@
        }),
{
    reveal_strlit("  ");
    reveal_strlit("--- 373B/046D 相关接口（被拒/无法打开） ---");
    let keep = |f: Seq<char>| is_notable(f);
    let kept = fails.filter(keep);
    let report = failure_report(fails);
    if fails.contains(f) && is_notable(f) {
        let i = choose|i: int| 0 <= i < fails.len() && fails[i] == f;
        fails.lemma_filter_contains(keep, i);
        let k = choose|k: int| 0 <= k < kept.len() && kept[k] == f;
        assert(report[k + 1] == "  "@ + f);
    }
    if fails.len() == 0 {
        reveal(Seq::filter);
    }
    if report.len() >= 2 && report.contains("  "@ + f) {
        let k = choose|k: int| 0 <= k < report.len() && report[k] == "  "@ + f;
        if k == 0 {
            assert(("  "@ + f)[0] == ' ');
            assert(report[0][0] == '-');
        }
        assert(report[k] == "  "@ + kept[k - 1]);
        assert(f =~= ("  "@ + f).skip(2));
        assert(kept[k - 1] =~= ("  "@ + kept[k - 1]).skip(2));
        assert(kept.contains(f));
        fails.lemma_filter_pred(keep, k - 1);
        fails.lemma_filter_contains_rev(keep, f);
    }
}

/// The line for a device tells its name, whether it is connected, its battery, status,
/// kind and address.
pub proof fn law_device_line_tells_all(d: DeviceView)
    ensures
        ({
            let s = device_text(d);
            let flag = if d.connected {
                "true"@
            } else {
                "false"@
            };
            let level = match d.battery {
                Some(b) => "Some("@ + text::decimal(b as nat) + ")"@,
                None => "None"@,
            };
            &&& text::starts_with(s, d.name)
            &&& text::contains(s, " connected="@ + flag)
            &&& text::contains(s, " battery="@ + level)
            &&& text::contains(s, " status="@ + d.status)
            &&& text::contains(s, " kind="@ + d.kind)
            &&& text::contains(s, " addr="@ + d.address)
        }),
{
    let flag = " connected="@ + flag_text(d.connected);
    let level = " battery="@ + hidwatch::battery_text(d.battery);
    let status = " status="@ + d.status;
    let kind = " kind="@ + d.kind;
    let addr = " addr="@ + d.address;
    let s = device_text(d);
    assert(s =~= d.name + (flag + level + status + kind + addr));
    text::lemma_between(Seq::empty(), d.name, flag + level + status + kind + addr);
    assert(s =~= d.name + flag + (level + status + kind + addr));
    text::lemma_between(d.name, flag, level + status + kind + addr);
    assert(s =~= (d.name + flag) + level + (status + kind + addr));
    text::lemma_between(d.name + flag, level, status + kind + addr);
    assert(s =~= (d.name + flag + level) + status + (kind + addr));
    text::lemma_between(d.name + flag + level, status, kind + addr);
    assert(s =~= (d.name + flag + level + status) + kind + addr);
    text::lemma_between(d.name + flag + level + status, kind, addr);
    assert(s =~= (d.name + flag + level + status + kind) + addr + Seq::empty());
    text::lemma_between(d.name + flag + level + status + kind, addr, Seq::empty());
}

/// The line for a collection tells its battery, its link and what was read of it.
pub proof fn law_collection_line_tells_battery(d: HidView)
    ensures
        ({
            let s = collection_battery(d);
            let flag = if d.link_up {
                "true"@
            } else {
                "false"@
            };
            let level = match d.battery {
                Some(b) => "Some("@ + text::decimal(b as nat) + ")"@,
                None => "None"@,
            };
            &&& text::starts_with(s, " battery="@ + level)
            &&& text::contains(s, " link="@ + flag)
            &&& text::contains(s, " bytes=["@ + d.feature_hex)
            &&& text::contains(s, "] dbg=["@ + d.debug)
            &&& text::contains(s, "] path="@ + d.path)
        }),
{
    let level = " battery="@ + hidwatch::battery_text(d.battery);
    let flag = " link="@ + flag_text(d.link_up);
    let bytes = " bytes=["@ + d.feature_hex;
    let debug = "] dbg=["@ + d.debug;
    let path = "] path="@ + d.path;
    let s = collection_battery(d);
    assert(s =~= level + (flag + bytes + debug + path));
    text::lemma_between(Seq::empty(), level, flag + bytes + debug + path);
    assert(s =~= level + flag + (bytes + debug + path));
    text::lemma_between(level, flag, bytes + debug + path);
    assert(s =~= (level + flag) + bytes + (debug + path));
    text::lemma_between(level + flag, bytes, debug + path);
    assert(s =~= (level + flag + bytes) + debug + path);
    text::lemma_between(level + flag + bytes, debug, path);
    assert(s =~= (level + flag + bytes + debug) + path + Seq::empty());
    text::lemma_between(level + flag + bytes + debug, path, Seq::empty());
}

/// The line for a collection tells its ids and usage in hexadecimal, and the lengths of
/// its reports in decimal.
pub proof fn law_collection_line_tells_numbers(d: HidView)
    ensures
        ({
            let s = collection_numbers(d);
            &&& text::starts_with(s, text::hex(d.vid as nat, 4) + seq![':'] + text::hex(
                d.pid as nat,
                4,
            ))
            &&& text::contains(s, " uP="@ + text::hex(d.usage_page as nat, 4))
            &&& text::contains(s, " u="@ + text::hex(d.usage as nat, 4))
            &&& text::contains(s, " in="@ + text::decimal(d.input_len as nat))
            &&& text::contains(s, " out="@ + text::decimal(d.output_len as nat))
            &&& text::contains(s, " feat="@ + text::decimal(d.feature_len as nat))
        }),
{
    reveal_strlit(":");
    let ids = hidwatch::ids_text(d.vid, d.pid);
    let page = " uP="@ + text::hex(d.usage_page as nat, 4);
    let usage = " u="@ + text::hex(d.usage as nat, 4);
    let i = " in="@ + text::decimal(d.input_len as nat);
    let o = " out="@ + text::decimal(d.output_len as nat);
    let f = " feat="@ + text::decimal(d.feature_len as nat);
    let s = collection_numbers(d);
    assert(ids =~= text::hex(d.vid as nat, 4) + seq![':'] + text::hex(d.pid as nat, 4));
    assert(s =~= ids + (page + usage + i + o + f));
    text::lemma_between(Seq::empty(), ids, page + usage + i + o + f);
    assert(s =~= ids + page + (usage + i + o + f));
    text::lemma_between(ids, page, usage + i + o + f);
    assert(s =~= (ids + page) + usage + (i + o + f));
    text::lemma_between(ids + page, usage, i + o + f);
    assert(s =~= (ids + page + usage) + i + (o + f));
    text::lemma_between(ids + page + usage, i, o + f);
    assert(s =~= (ids + page + usage + i) + o + f);
    text::lemma_between(ids + page + usage + i, o, f);
    assert(s =~= (ids + page + usage + i + o) + f + Seq::empty());
    text::lemma_between(ids + page + usage + i + o, f, Seq::empty());
}

} // verus!
